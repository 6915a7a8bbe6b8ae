//! Percent-encoding for URLs and file-name extensions.
use vstd::prelude::*;
use vstd::utf8::encode_utf8;

verus! {

/// Bytes that percent-encoding leaves as they are: ASCII letters and digits
/// and `-`, `.`, `_`, `~`.
pub open spec fn url_safe_byte(b: u8) -> bool {
    ||| 48 <= b <= 57
    ||| 65 <= b <= 90
    ||| 97 <= b <= 122
    ||| b == 45
    ||| b == 46
    ||| b == 95
    ||| b == 126
}

/// The upper-case hexadecimal digit for `d < 16`.
pub open spec fn hex_digit(d: u8) -> char {
    if d < 10 {
        (48 + d) as char
    } else {
        (55 + d) as char
    }
}

/// The percent-encoding of a byte sequence: safe bytes stand for themselves,
/// every other byte becomes `%` and two upper-case hexadecimal digits.
pub open spec fn url_encode_bytes(bytes: Seq<u8>) -> Seq<char>
    decreases bytes.len(),
{
    if bytes.len() == 0 {
        Seq::empty()
    } else {
        let b = bytes.last();
        url_encode_bytes(bytes.drop_last()) + if url_safe_byte(b) {
            seq![b as char]
        } else {
            seq!['%', hex_digit(b / 16), hex_digit(b % 16)]
        }
    }
}

/// The percent-encoding of the UTF-8 bytes of `s`.
pub open spec fn url_encoded(s: Seq<char>) -> Seq<char> {
    url_encode_bytes(encode_utf8(s))
}

/// The value of an upper-case hexadecimal digit (16 for any other
/// character).
pub open spec fn hex_value(c: char) -> int {
    if '0' <= c <= '9' {
        c as int - 48
    } else if 'A' <= c <= 'F' {
        c as int - 55
    } else {
        16
    }
}

/// Percent-encoding works byte by byte: the encoding of two byte sequences
/// one after the other is their encodings one after the other. An ASCII
/// letter or digit, `-`, `.`, `_` or `~` stands for itself; any other byte
/// becomes `%` and the two upper-case hexadecimal digits of its value.
pub proof fn lemma_url_encode_bytes(a: Seq<u8>, b: Seq<u8>, x: u8)
    ensures
        url_encode_bytes(a + b) == url_encode_bytes(a) + url_encode_bytes(b),
        ('a' as int <= x <= 'z' as int || 'A' as int <= x <= 'Z' as int || '0' as int <= x <= '9' as int
            || x == '-' as int || x == '.' as int || x == '_' as int || x == '~' as int) ==> url_encode_bytes(
            seq![x],
        ) == seq![x as char],
        !('a' as int <= x <= 'z' as int || 'A' as int <= x <= 'Z' as int || '0' as int <= x <= '9' as int
            || x == '-' as int || x == '.' as int || x == '_' as int || x == '~' as int) ==> {
            let e = url_encode_bytes(seq![x]);
            &&& e.len() == 3
            &&& e[0] == '%'
            &&& hex_value(e[1]) < 16 && hex_value(e[2]) < 16
            &&& hex_value(e[1]) * 16 + hex_value(e[2]) == x as int
        },
    decreases b.len(),
{
    assert(url_encode_bytes(seq![x]) == url_encode_bytes_one(x)) by {
        assert(seq![x].drop_last() =~= Seq::<u8>::empty());
        assert(seq![x].last() == x);
        assert(url_encode_bytes(Seq::<u8>::empty()) == Seq::<char>::empty());
        assert(Seq::<char>::empty() + url_encode_bytes_one(x) =~= url_encode_bytes_one(x));
    }
    assert('a' as int == 97 && 'z' as int == 122 && 'A' as int == 65 && 'Z' as int == 90);
    assert('0' as int == 48 && '9' as int == 57 && '-' as int == 45 && '.' as int == 46);
    assert('_' as int == 95 && '~' as int == 126);
    if b.len() > 0 {
        lemma_url_encode_bytes(a, b.drop_last(), x);
        assert((a + b).drop_last() =~= a + b.drop_last());
        assert((a + b).last() == b.last());
        assert(url_encode_bytes(a + b) =~= url_encode_bytes(a) + url_encode_bytes(b));
    } else {
        assert(a + b =~= a);
        assert(url_encode_bytes(a) + url_encode_bytes(b) =~= url_encode_bytes(a));
    }
    let hi = x / 16;
    let lo = x % 16;
    assert(hex_value(hex_digit(hi)) == hi as int);
    assert(hex_value(hex_digit(lo)) == lo as int);
}

/// What one byte stands for in its percent-encoding.
spec fn url_encode_bytes_one(x: u8) -> Seq<char> {
    if url_safe_byte(x) {
        seq![x as char]
    } else {
        seq!['%', hex_digit(x / 16), hex_digit(x % 16)]
    }
}

/// `urlencoding::encode`: percent-encodes every byte of the UTF-8 form of `s`
/// except ASCII alphanumerics and `-`, `_`, `.`, `~`, with upper-case
/// hexadecimal digits. The contract states that, over `url_encoded`.
#[verifier::external_body]
pub(crate) fn url_encode(s: &str) -> (r: String)
    ensures
        r@ == url_encoded(s@),
{
    urlencoding::encode(s).into_owned()
}

/// The extension of the file name of the path `path`, as
/// `std::path::Path::extension` gives it.
pub uninterp spec fn path_extension(path: Seq<char>) -> Option<Seq<char>>;

/// `std::path::Path::extension` of `path`, read back as a string (a path made
/// from a `str` always reads back). The contract claims only that the result
/// is [`path_extension`] of `path`.
#[verifier::external_body]
pub(crate) fn extension_of(path: &str) -> (r: Option<String>)
    ensures
        r.deep_view() == path_extension(path@),
{
    std::path::Path::new(path).extension().and_then(|e| e.to_str()).map(|e| e.to_string())
}

} // verus!
