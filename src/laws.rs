//! Properties of encryption and decryption that hold for every cipher.
use vstd::prelude::*;

use crate::cipher::{Cipher, substitute};

verus! {

/// Encrypting a single mapped character and decrypting the result gives the
/// character back; decrypting a single character that the inverse table maps
/// and encrypting the result gives it back too.
pub proof fn lemma_single_char_round_trip(cipher: Cipher, c: char)
    requires
        cipher.wf(),
    ensures
        cipher.forward().contains_key(c) ==> substitute(
            cipher.inverse(),
            substitute(cipher.forward(), seq![c]),
        ) == seq![c],
        cipher.inverse().contains_key(c) ==> substitute(
            cipher.forward(),
            substitute(cipher.inverse(), seq![c]),
        ) == seq![c],
{
    let f = cipher.forward();
    let g = cipher.inverse();
    if f.contains_key(c) {
        assert(substitute(g, substitute(f, seq![c])) =~= seq![c]);
    }
    if g.contains_key(c) {
        assert(substitute(f, substitute(g, seq![c])) =~= seq![c]);
    }
}

/// A character that a table does not map is left where it is.
pub proof fn lemma_unmapped_unchanged(cipher: Cipher, t: Seq<char>, i: int)
    requires
        0 <= i < t.len(),
    ensures
        !cipher.forward().contains_key(t[i]) ==> substitute(cipher.forward(), t)[i] == t[i],
        !cipher.inverse().contains_key(t[i]) ==> substitute(cipher.inverse(), t)[i] == t[i],
{
}

/// Encryption and decryption keep the number of characters.
pub proof fn lemma_length_preserved(cipher: Cipher, t: Seq<char>)
    ensures
        substitute(cipher.forward(), t).len() == t.len(),
        substitute(cipher.inverse(), t).len() == t.len(),
{
}

/// Decrypting an encrypted text gives the text back, provided that every
/// character of it that the inverse table maps is also mapped by the forward
/// table. (With the rule `a=b`, the text `b` encrypts to `b`, which decrypts
/// to `a`.)
pub proof fn lemma_round_trip(cipher: Cipher, t: Seq<char>)
    requires
        cipher.wf(),
        forall|i: int|
            0 <= i < t.len() ==> cipher.forward().contains_key(t[i]) || !cipher.inverse().contains_key(
                #[trigger] t[i],
            ),
    ensures
        substitute(cipher.inverse(), substitute(cipher.forward(), t)) == t,
{
    assert(substitute(cipher.inverse(), substitute(cipher.forward(), t)) =~= t);
}

} // verus!
