//! The installed set, read from the package manager's listing: one package
//! name per line.
use crate::parser::{lemma_next_newline, next_newline, NEWLINE};
use crate::text::find_byte;
use vstd::prelude::*;
use vstd::utf8::{decode_utf8, valid_utf8};

verus! {

/// What `String::from_utf8_lossy` makes of a byte sequence.
pub uninterp spec fn lossy_of(b: Seq<u8>) -> Seq<char>;

/// Relies on `String::from_utf8_lossy`: invalid sequences become U+FFFD and
/// valid UTF-8 decodes unchanged.
#[verifier::external_body]
fn lossy_text(b: &[u8]) -> (r: String)
    ensures
        r@ == lossy_of(b@),
        valid_utf8(b@) ==> r@ == decode_utf8(b@),
{
    String::from_utf8_lossy(b).into_owned()
}

/// A character with the Unicode `White_Space` property.
pub open spec fn is_white_space(c: char) -> bool {
    let u = c as u32;
    (0x09 <= u <= 0x0D) || u == 0x20 || u == 0x85 || u == 0xA0 || u == 0x1680 || (0x2000 <= u
        <= 0x200A) || u == 0x2028 || u == 0x2029 || u == 0x202F || u == 0x205F || u == 0x3000
}

pub open spec fn trim_start(s: Seq<char>) -> Seq<char>
    decreases s.len(),
{
    if s.len() > 0 && is_white_space(s[0]) {
        trim_start(s.drop_first())
    } else {
        s
    }
}

pub open spec fn trim_end(s: Seq<char>) -> Seq<char>
    decreases s.len(),
{
    if s.len() > 0 && is_white_space(s.last()) {
        trim_end(s.drop_last())
    } else {
        s
    }
}

/// `s` without leading and trailing whitespace.
pub open spec fn trimmed(s: Seq<char>) -> Seq<char> {
    trim_end(trim_start(s))
}

/// Relies on `str::trim`: it removes leading and trailing characters with
/// the `White_Space` property.
#[verifier::external_body]
fn trim_text(s: &str) -> (r: String)
    ensures
        r@ == trimmed(s@),
{
    s.trim().to_string()
}

/// The names in the listing `b` from `pos` on, appended to `acc`: each
/// newline-separated line, decoded and trimmed, blank lines left out.
pub open spec fn names_from(b: Seq<u8>, pos: int, acc: Seq<Seq<char>>) -> Seq<Seq<char>>
    decreases b.len() + 1 - pos,
{
    if pos < 0 || pos > b.len() {
        acc
    } else {
        let e = next_newline(b, pos);
        let name = trimmed(lossy_of(b.subrange(pos, e)));
        let next = if name.len() > 0 {
            acc.push(name)
        } else {
            acc
        };
        if pos <= e < b.len() {
            names_from(b, e + 1, next)
        } else {
            next
        }
    }
}

/// The installed package names that a listing holds, in listed order.
pub open spec fn listed_names(b: Seq<u8>) -> Seq<Seq<char>> {
    names_from(b, 0, Seq::empty())
}

/// Reads the package manager's listing of installed packages: one name per
/// line, surrounding whitespace trimmed, blank lines skipped.
pub fn read_package_list(output: &[u8]) -> (r: Vec<String>)
    ensures
        r@.map_values(|s: String| s@) == listed_names(output@),
{
    let mut out: Vec<String> = Vec::new();
    let mut pos: usize = 0;
    let mut done = false;
    assert(out@.map_values(|s: String| s@) =~= Seq::<Seq<char>>::empty());
    while !done
        invariant
            pos <= output@.len(),
            done ==> out@.map_values(|s: String| s@) == listed_names(output@),
            !done ==> names_from(output@, pos as int, out@.map_values(|s: String| s@))
                == listed_names(output@),
        decreases output@.len() + 1 - pos + if done { 0int } else { 1int },
    {
        let ghost acc = out@.map_values(|s: String| s@);
        let rest = &output[pos..output.len()];
        let end = match find_byte(NEWLINE, rest) {
            Some(k) => pos + k,
            None => output.len(),
        };
        proof {
            assert forall|j: int| pos <= j < end implies output@[j] != NEWLINE by {
                assert(rest@[j - pos] == output@[j]);
            }
            if end < output@.len() {
                assert(rest@[end - pos] == output@[end as int]);
            }
            lemma_next_newline(output@, pos as int, end as int);
        }
        let seg = &output[pos..end];
        assert(seg@ == output@.subrange(pos as int, end as int));
        let line = lossy_text(seg);
        let name = trim_text(line.as_str());
        let blank = String::new();
        let ghost before = out@;
        let ghost nm = name@;
        if !name.eq(&blank) {
            assert(nm.len() > 0) by {
                if nm.len() == 0 {
                    assert(nm =~= blank@);
                }
            }
            out.push(name);
            assert(out@.map_values(|s: String| s@) =~= acc.push(nm));
        } else {
            assert(name@.len() == 0);
            assert(out@ == before);
        }
        let ghost next = out@.map_values(|s: String| s@);
        assert(next == if nm.len() > 0 { acc.push(nm) } else { acc });
        assert(names_from(output@, pos as int, acc) == if end < output@.len() {
            names_from(output@, end + 1, next)
        } else {
            next
        });
        if end < output.len() {
            pos = end + 1;
        } else {
            done = true;
        }
    }
    out
}

} // verus!
