use vstd::prelude::*;
use vstd::string::*;

verus! {

/// `s` without its trailing ASCII spaces.
pub open spec fn trim_trailing_spaces(s: Seq<char>) -> Seq<char>
    decreases s.len(),
{
    if s.len() > 0 && s.last() == ' ' {
        trim_trailing_spaces(s.drop_last())
    } else {
        s
    }
}

/// Trimming a blank-padded string removes exactly its trailing spaces: what is
/// left is a prefix of the input that does not end in a space, and every
/// character cut off is a space. Leading and inner spaces stay.
pub proof fn lemma_bpchar_trim(s: Seq<char>)
    ensures
        trim_trailing_spaces(s).len() <= s.len(),
        trim_trailing_spaces(s) == s.take(trim_trailing_spaces(s).len() as int),
        forall|i: int| trim_trailing_spaces(s).len() <= i < s.len() ==> s[i] == ' ',
        trim_trailing_spaces(s).len() > 0 ==> trim_trailing_spaces(s).last() != ' ',
    decreases s.len(),
{
    if s.len() > 0 && s.last() == ' ' {
        let s1 = s.drop_last();
        lemma_bpchar_trim(s1);
        let t = trim_trailing_spaces(s);
        assert(t == trim_trailing_spaces(s1));
        assert(t =~= s.take(t.len() as int)) by {
            assert forall|i: int| 0 <= i < t.len() implies t[i] == s[i] by {
                assert(s1.take(t.len() as int)[i] == s1[i]);
            }
        }
        assert forall|i: int| t.len() <= i < s.len() implies s[i] == ' ' by {
            if i < s1.len() {
                assert(s1[i] == s[i]);
            }
        }
    } else {
        assert(s.take(s.len() as int) =~= s);
    }
}

/// Strips trailing spaces from a blank-padded (BPCHAR) value.
pub fn trim_bpchar(s: &str) -> (r: String)
    ensures
        r@ == trim_trailing_spaces(s@),
{
    let n = s.unicode_len();
    let mut k: usize = n;
    assert(s@.take(n as int) =~= s@);
    while k > 0 && s.get_char(k - 1) == ' '
        invariant
            n == s@.len(),
            k <= n,
            trim_trailing_spaces(s@.take(k as int)) == trim_trailing_spaces(s@),
        decreases k,
    {
        assert(s@.take(k as int).drop_last() =~= s@.take(k - 1));
        k = k - 1;
    }
    let t = s.substring_char(0, k);
    assert(t@ =~= s@.take(k as int));
    String::from_str(t)
}

/// The character that writes the hexadecimal digit `d`, in lower case.
pub open spec fn hex_digit(d: nat) -> char {
    seq!['0', '1', '2', '3', '4', '5', '6', '7', '8', '9', 'a', 'b', 'c', 'd', 'e', 'f'][d as int]
}

/// Bytes written as two lowercase hexadecimal digits each.
pub open spec fn hex_of(bs: Seq<u8>) -> Seq<char>
    decreases bs.len(),
{
    if bs.len() == 0 {
        Seq::empty()
    } else {
        hex_of(bs.drop_last()) + seq![hex_digit(bs.last() as nat / 16), hex_digit(bs.last() as nat % 16)]
    }
}

/// The canonical text of a UUID: lowercase hexadecimal in groups of 8, 4, 4,
/// 4 and 12 digits joined by hyphens.
pub open spec fn uuid_text(b: Seq<u8>) -> Seq<char> {
    hex_of(b.subrange(0, 4)) + seq!['-'] + hex_of(b.subrange(4, 6)) + seq!['-'] + hex_of(
        b.subrange(6, 8),
    ) + seq!['-'] + hex_of(b.subrange(8, 10)) + seq!['-'] + hex_of(b.subrange(10, 16))
}

/// Relies on uuid's `Uuid::from_bytes` and its `Display`, which writes the
/// hyphenated lowercase form of the sixteen bytes.
#[verifier::external_body]
pub(crate) fn uuid_to_string(bytes: [u8; 16]) -> (r: String)
    ensures
        r@ == uuid_text(bytes@),
{
    uuid::Uuid::from_bytes(bytes).to_string()
}

} // verus!
