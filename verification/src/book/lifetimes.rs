//! Borrowed string slices: the longer of two, and the first word of a text.
use vstd::prelude::*;
use vstd::string::StringSliceAdditionalSpecFns;
use vstd::utf8::encode_utf8;

verus! {

/// The longer of two strings, by their length in bytes; the second on a tie.
pub fn longest<'a>(str_1: &'a str, str_2: &'a str) -> (r: &'a str)
    ensures
        r@ == (if str_1.len() > str_2.len() {
            str_1@
        } else {
            str_2@
        }),
{
    if str_1.len() > str_2.len() {
        str_1
    } else {
        str_2
    }
}

/// The first of two strings, whichever of them is shorter.
pub fn shortest<'a>(str_1: &'a str, str_2: &str) -> (r: &'a str)
    ensures
        r@ == str_1@,
{
    if str_1.len() < str_2.len() {
        str_1
    } else {
        str_1
    }
}

/// The index of the first space in `bytes`, or their length if there is none.
pub open spec fn first_space(bytes: Seq<u8>) -> int
    decreases bytes.len(),
{
    if bytes.len() == 0 {
        0
    } else if bytes[0] == 32 {
        0
    } else {
        1 + first_space(bytes.drop_first())
    }
}

proof fn lemma_first_space(bytes: Seq<u8>, i: int)
    requires
        0 <= i <= bytes.len(),
        forall|j: int| 0 <= j < i ==> bytes[j] != 32,
        i == bytes.len() || bytes[i] == 32,
    ensures
        first_space(bytes) == i,
    decreases bytes.len(),
{
    if bytes.len() > 0 && i > 0 {
        assert forall|j: int| 0 <= j < i - 1 implies bytes.drop_first()[j] != 32 by {
            assert(bytes.drop_first()[j] == bytes[j + 1]);
        }
        lemma_first_space(bytes.drop_first(), i - 1);
    }
}

/// The first word of a text: its bytes up to the first space, or the whole
/// text where there is no space.
pub fn first_word(s: &String) -> (r: &str)
    ensures
        r.spec_bytes() == encode_utf8(s@).take(first_space(encode_utf8(s@))),
{
    broadcast use vstd::utf8::group_utf8_lib;

    let text = s.as_str();
    let bytes = text.as_bytes();
    proof {
        vstd::utf8::encode_utf8_valid_utf8(text@);
    }
    let mut i: usize = 0;
    while i < bytes.len()
        invariant
            i <= bytes@.len(),
            bytes@ == text.spec_bytes(),
            text@ == s@,
            vstd::utf8::valid_utf8(bytes@),
            forall|j: int| 0 <= j < i ==> bytes@[j] != 32,
        decreases bytes.len() - i,
    {
        if bytes[i] == 32 {
            proof {
                lemma_first_space(bytes@, i as int);
                vstd::utf8::is_char_boundary_iff_not_is_continuation_byte(bytes@, i as int);
            }
            let (word, _) = text.split_at(i);
            return word;
        }
        i = i + 1;
    }
    proof {
        lemma_first_space(bytes@, i as int);
        vstd::utf8::is_char_boundary_start_end_of_seq(bytes@);
        assert(bytes@.take(i as int) == bytes@);
    }
    let (word, _) = text.split_at(i);
    word
}

} // verus!
