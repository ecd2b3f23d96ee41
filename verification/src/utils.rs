//! Text preprocessing applied once before parsing: accented Latin letters are
//! replaced by their unaccented ASCII base letter and the byte-order-mark
//! sentinel by a plain space, so that the engine's ASCII character classes can
//! lex identifiers and numbers in the normalized text.
use vstd::prelude::*;

verus! {

use crate::text::{chars_to_string, str_to_chars};

/// The per-character normalization table. Every character that is not listed
/// passes through unchanged.
pub open spec fn normalize_char(c: char) -> char {
    if c == '\u{feff}' {
        ' '
    } else if c == 'á' || c == 'â' || c == 'à' || c == 'Á' {
        'a'
    } else if c == 'é' || c == 'ë' || c == 'è' || c == 'ê' || c == 'É' {
        'e'
    } else if c == 'í' || c == 'ì' || c == 'î' || c == 'Í' {
        'i'
    } else if c == 'ó' || c == 'œ' || c == 'æ' || c == 'ò' || c == 'Ó' {
        'o'
    } else if c == 'ú' || c == 'ù' || c == 'Ú' {
        'u'
    } else if c == 'ç' {
        'c'
    } else if c == 'ñ' || c == 'Ñ' {
        'n'
    } else {
        c
    }
}

/// The normalized form of a whole text: `normalize_char` applied per character.
pub open spec fn preprocess_spec(s: Seq<char>) -> Seq<char> {
    s.map_values(|c: char| normalize_char(c))
}

/// Applies the normalization table to every character of `input`.
pub fn preprocess_content(input: &str) -> (r: String)
    ensures
        r@ == preprocess_spec(input@),
{
    let v = str_to_chars(input);
    let mut out: Vec<char> = Vec::new();
    let mut i: usize = 0;
    while i < v.len()
        invariant
            i <= v@.len(),
            v@ == input@,
            out@ == preprocess_spec(input@).subrange(0, i as int),
        decreases v@.len() - i,
    {
        out.push(normalize_char_exec(v[i]));
        i = i + 1;
        proof {
            assert(preprocess_spec(input@).subrange(0, i as int) =~= preprocess_spec(
                input@,
            ).subrange(0, i - 1).push(normalize_char(input@[i - 1])));
        }
    }
    proof {
        assert(preprocess_spec(input@).subrange(0, v@.len() as int) =~= preprocess_spec(input@));
    }
    chars_to_string(&out)
}

/// The normalization table on one character.
pub fn normalize_char_exec(c: char) -> (r: char)
    ensures
        r == normalize_char(c),
{
    if c == '\u{feff}' {
        ' '
    } else if c == 'á' || c == 'â' || c == 'à' || c == 'Á' {
        'a'
    } else if c == 'é' || c == 'ë' || c == 'è' || c == 'ê' || c == 'É' {
        'e'
    } else if c == 'í' || c == 'ì' || c == 'î' || c == 'Í' {
        'i'
    } else if c == 'ó' || c == 'œ' || c == 'æ' || c == 'ò' || c == 'Ó' {
        'o'
    } else if c == 'ú' || c == 'ù' || c == 'Ú' {
        'u'
    } else if c == 'ç' {
        'c'
    } else if c == 'ñ' || c == 'Ñ' {
        'n'
    } else {
        c
    }
}

/// Law: preprocessing is idempotent. Normalizing already-normalized text is a
/// no-op, because every character the table produces is itself unmapped.
pub proof fn lemma_preprocess_idempotent(s: Seq<char>)
    ensures
        preprocess_spec(preprocess_spec(s)) == preprocess_spec(s),
{
    assert forall|i: int| 0 <= i < s.len() implies normalize_char(normalize_char(s[i]))
        == normalize_char(s[i]) by {}
    assert(preprocess_spec(preprocess_spec(s)) =~= preprocess_spec(s));
}

/// Law: preprocessing is the identity on pure-ASCII text; only characters
/// outside the ASCII range are in the normalization table.
pub proof fn lemma_preprocess_ascii_identity(s: Seq<char>)
    requires
        forall|i: int| 0 <= i < s.len() ==> (s[i] as u32) < 128,
    ensures
        preprocess_spec(s) == s,
{
    assert forall|i: int| 0 <= i < s.len() implies normalize_char(s[i]) == s[i] by {}
    assert(preprocess_spec(s) =~= s);
}

/// Law: preprocessing preserves the length of the text, and in particular the
/// position of every line break.
pub proof fn lemma_preprocess_preserves_length(s: Seq<char>)
    ensures
        preprocess_spec(s).len() == s.len(),
        forall|i: int| 0 <= i < s.len() ==> (preprocess_spec(s)[i] == '\n' <==> s[i] == '\n'),
{
    assert forall|i: int| 0 <= i < s.len() implies (preprocess_spec(s)[i] == '\n' <==> s[i]
        == '\n') by {}
}

} // verus!
