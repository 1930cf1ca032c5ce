//! The substitution cipher: a forward table and its exact inverse, read from a
//! mapping text and applied character by character.
use std::collections::HashMap;
use vstd::prelude::*;

use crate::mapping::{FormatError, FormatErrorView, Line, classify, parse_lines, parse_mapping};
use crate::text::{char_vec, lines, split_lines, string_from_chars, trimmed};

verus! {

/// The character a table sends `c` to: its entry, or `c` itself when it has none.
pub open spec fn image(m: Map<char, char>, c: char) -> char {
    if m.contains_key(c) {
        m[c]
    } else {
        c
    }
}

/// `t` with every character replaced by its image under `m`.
pub open spec fn substitute(m: Map<char, char>, t: Seq<char>) -> Seq<char> {
    t.map_values(|c: char| image(m, c))
}

/// `f` and `g` undo each other: each entry of one is reversed in the other.
pub open spec fn mutual_inverse(f: Map<char, char>, g: Map<char, char>) -> bool {
    &&& forall|a: char| #[trigger] f.contains_key(a) ==> g.contains_key(f[a]) && g[f[a]] == a
    &&& forall|b: char| #[trigger] g.contains_key(b) ==> f.contains_key(g[b]) && f[g[b]] == b
}

/// A table keyed by character codes, seen as a table on characters.
pub open spec fn by_char(m: Map<u32, char>) -> Map<char, char> {
    Map::new(|c: char| m.contains_key(c as u32), |c: char| m[c as u32])
}

proof fn char_code_injective(a: char, b: char)
    ensures
        (a as u32 == b as u32) == (a == b),
{
}

/// A substitution cipher. `encrypt_map` and `decrypt_map` are keyed by
/// character code and are exact inverses of each other.
#[derive(Debug)]
pub struct Cipher {
    encrypt_map: HashMap<u32, char>,
    decrypt_map: HashMap<u32, char>,
}

/// The image of `c` under the table `m`.
fn look_up(m: &HashMap<u32, char>, c: char) -> (r: char)
    ensures
        r == image(by_char(m@), c),
{
    match m.get(&(c as u32)) {
        Some(d) => *d,
        None => c,
    }
}

/// `text` with every character replaced by its image under `m`.
fn substitute_text(m: &HashMap<u32, char>, text: &str) -> (r: String)
    ensures
        r@ == substitute(by_char(m@), text@),
{
    let cs = char_vec(text);
    let mut out: Vec<char> = Vec::new();
    for i in 0..cs.len()
        invariant
            cs@ == text@,
            out@ == substitute(by_char(m@), cs@.take(i as int)),
    {
        out.push(look_up(m, cs[i]));
        assert(out@ =~= substitute(by_char(m@), cs@.take(i + 1)));
    }
    assert(cs@.take(cs.len() as int) =~= cs@);
    string_from_chars(&out)
}

impl Cipher {
    /// The table used to encrypt.
    pub closed spec fn forward(&self) -> Map<char, char> {
        by_char(self.encrypt_map@)
    }

    /// The table used to decrypt.
    pub closed spec fn inverse(&self) -> Map<char, char> {
        by_char(self.decrypt_map@)
    }

    /// The two tables are exact inverses of each other.
    pub open spec fn wf(&self) -> bool {
        mutual_inverse(self.forward(), self.inverse())
    }

    /// Reads a mapping text. Fails with the first faulty line's error; on
    /// success the cipher holds exactly the rules of the text, and its
    /// tables are exact inverses.
    pub fn parse(spec: &str) -> (r: Result<Cipher, FormatError>)
        ensures
            match r {
                Ok(c) => c.wf() && parse_mapping(spec@) == Ok::<
                    (Map<char, char>, Map<char, char>),
                    FormatErrorView,
                >((c.forward(), c.inverse())),
                Err(e) => parse_mapping(spec@) == Err::<
                    (Map<char, char>, Map<char, char>),
                    FormatErrorView,
                >(e@),
            },
    {
        let chars = char_vec(spec);
        let ls = split_lines(&chars);
        let ghost lv = ls@.map_values(|l: Vec<char>| l@);
        let mut c = Cipher { encrypt_map: HashMap::new(), decrypt_map: HashMap::new() };
        assert(c.forward() =~= Map::empty());
        assert(c.inverse() =~= Map::empty());
        for i in 0..ls.len()
            invariant
                lv == lines(spec@),
                lv == ls@.map_values(|l: Vec<char>| l@),
                c.wf(),
                parse_mapping(spec@) == parse_lines(lv, i as nat, c.forward(), c.inverse()),
        {
            let t = trimmed(&ls[i], 0, ls[i].len());
            assert(ls[i as int]@.subrange(0, ls[i as int]@.len() as int) =~= lv[i as int]);
            match classify(&t) {
                Line::Blank => {},
                Line::MissingSeparator => {
                    return Err(
                        FormatError::MissingSeparator { line: i + 1, content: string_from_chars(&t) },
                    );
                },
                Line::EmptyKey => {
                    return Err(
                        FormatError::EmptyKey { line: i + 1, content: string_from_chars(&t) },
                    );
                },
                Line::EmptyValue => {
                    return Err(
                        FormatError::EmptyValue { line: i + 1, content: string_from_chars(&t) },
                    );
                },
                Line::Rule { key, value } => {
                    if c.encrypt_map.contains_key(&(key as u32)) {
                        return Err(FormatError::DuplicateKey { line: i + 1, key });
                    }
                    if c.decrypt_map.contains_key(&(value as u32)) {
                        return Err(FormatError::DuplicateValue { line: i + 1, value });
                    }
                    let ghost f0 = c.forward();
                    let ghost g0 = c.inverse();
                    c.encrypt_map.insert(key as u32, value);
                    c.decrypt_map.insert(value as u32, key);
                    assert forall|d: char| #[trigger] c.forward().contains_key(d) == f0.insert(key, value).contains_key(d) by {
                        char_code_injective(d, key);
                    }
                    assert forall|d: char| #[trigger] c.inverse().contains_key(d) == g0.insert(value, key).contains_key(d) by {
                        char_code_injective(d, value);
                    }
                    assert(c.forward() =~= f0.insert(key, value));
                    assert(c.inverse() =~= g0.insert(value, key));
                },
            }
        }
        Ok(c)
    }

    /// `text` with every character that the forward table maps replaced by
    /// its image; other characters are kept.
    pub fn encrypt(&self, text: &str) -> (r: String)
        ensures
            r@ == substitute(self.forward(), text@),
    {
        substitute_text(&self.encrypt_map, text)
    }

    /// `text` with every character that the inverse table maps replaced by
    /// its image; other characters are kept.
    pub fn decrypt(&self, text: &str) -> (r: String)
        ensures
            r@ == substitute(self.inverse(), text@),
    {
        substitute_text(&self.decrypt_map, text)
    }
}

} // verus!
