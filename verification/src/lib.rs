//! Terminal video rendering library.
//!
//! Converts raw RGB24 frames into ANSI escape-sequence streams for an
//! xterm-compatible terminal: aspect-preserving size selection, triangle-filter
//! scaling, half-block cell encoding with 5-bit color quantization, and a
//! differential repaint against the previously emitted frame. Also provides the
//! latest-wins sample hand-off state machine, the terminal-size change
//! encoding, and the keyboard control decisions that drive a media pipeline.

use vstd::prelude::*;

pub mod input_handler;
pub mod resize_image;
pub mod term_size;
pub mod terminal_sink;

pub use resize_image::resize_dimensions;

use vstd::slice::slice_index_get;

verus! {

/// ASCII whitespace, as byte-string trimming sees it.
pub open spec fn is_ascii_ws(b: u8) -> bool {
    b == 32 || b == 9 || b == 10 || b == 12 || b == 13
}

/// A byte lowercased; only ASCII capitals change.
pub open spec fn lower_byte(b: u8) -> u8 {
    if 65 <= b && b <= 90 {
        (b + 32) as u8
    } else {
        b
    }
}

/// The bytes with leading ASCII whitespace removed.
pub open spec fn trim_front(s: Seq<u8>) -> Seq<u8>
    decreases s.len(),
{
    if s.len() > 0 && is_ascii_ws(s[0]) {
        trim_front(s.drop_first())
    } else {
        s
    }
}

/// The bytes with trailing ASCII whitespace removed.
pub open spec fn trim_back(s: Seq<u8>) -> Seq<u8>
    decreases s.len(),
{
    if s.len() > 0 && is_ascii_ws(s.last()) {
        trim_back(s.drop_last())
    } else {
        s
    }
}

/// The trimmed value reads as a yes, ignoring case: `y`, `yes`, or nothing.
pub open spec fn reads_yes(t: Seq<u8>) -> bool {
    ||| t.len() == 0
    ||| t.len() == 1 && lower_byte(t[0]) == 121
    ||| t.len() == 3 && lower_byte(t[0]) == 121 && lower_byte(t[1]) == 101 && lower_byte(t[2])
        == 115
}

/// Whether an environment value switches a flag on: trimmed of surrounding
/// whitespace and ignoring case it reads `y`, `yes`, or nothing at all.
pub open spec fn spec_truthy(s: Seq<u8>) -> bool {
    reads_yes(trim_back(trim_front(s)))
}

/// Trimming from the front removes exactly the leading whitespace run.
proof fn lemma_trim_front_at(s: Seq<u8>, k: int)
    requires
        0 <= k <= s.len(),
        forall|i: int| 0 <= i < k ==> is_ascii_ws(#[trigger] s[i]),
        k == s.len() || !is_ascii_ws(s[k]),
    ensures
        trim_front(s) == s.subrange(k, s.len() as int),
    decreases k,
{
    if k == 0 {
        assert(s.subrange(0, s.len() as int) =~= s);
    } else {
        lemma_trim_front_at(s.drop_first(), k - 1);
        assert(s.drop_first().subrange(k - 1, s.drop_first().len() as int) =~= s.subrange(
            k,
            s.len() as int,
        ));
    }
}

/// Trimming from the back removes exactly the trailing whitespace run.
proof fn lemma_trim_back_at(s: Seq<u8>, e: int)
    requires
        0 <= e <= s.len(),
        forall|i: int| e <= i < s.len() ==> is_ascii_ws(#[trigger] s[i]),
        e == 0 || !is_ascii_ws(s[e - 1]),
    ensures
        trim_back(s) == s.subrange(0, e),
    decreases s.len(),
{
    if e == s.len() {
        if s.len() > 0 && is_ascii_ws(s.last()) {
            assert(!is_ascii_ws(s[e - 1]));
        }
        assert(s.subrange(0, e) =~= s);
    } else {
        lemma_trim_back_at(s.drop_last(), e);
        assert(s.drop_last().subrange(0, e) =~= s.subrange(0, e));
    }
}

/// Whether this byte is ASCII whitespace.
fn ws_byte(b: u8) -> (r: bool)
    ensures
        r == is_ascii_ws(b),
{
    b == 32 || b == 9 || b == 10 || b == 12 || b == 13
}

/// This byte lowercased.
fn lower_byte_of(b: u8) -> (r: u8)
    ensures
        r == lower_byte(b),
{
    if 65 <= b && b <= 90 {
        b + 32
    } else {
        b
    }
}

/// Whether an environment value switches a flag on: ignoring case and
/// surrounding whitespace it reads `y`, `yes`, or is empty.
pub fn is_truthy(value: &[u8]) -> (r: bool)
    ensures
        r == spec_truthy(value@),
{
    let n: usize = value.len();
    let mut start: usize = 0;
    while start < n && ws_byte(*slice_index_get(value, start))
        invariant
            start <= n,
            n == value@.len(),
            forall|i: int| 0 <= i < start ==> is_ascii_ws(#[trigger] value@[i]),
        decreases n - start,
    {
        start = start + 1;
    }
    let mut end: usize = n;
    while end > start && ws_byte(*slice_index_get(value, end - 1))
        invariant
            start <= end <= n,
            n == value@.len(),
            forall|i: int| end <= i < n ==> is_ascii_ws(#[trigger] value@[i]),
        decreases end,
    {
        end = end - 1;
    }
    let ghost t: Seq<u8> = value@.subrange(start as int, end as int);
    proof {
        lemma_trim_front_at(value@, start as int);
        lemma_trim_back_at(
            value@.subrange(start as int, n as int),
            end as int - start as int,
        );
        assert(value@.subrange(start as int, n as int).subrange(0, end as int - start as int)
            =~= t);
    }
    let len_t: usize = end - start;
    if len_t == 0 {
        true
    } else if len_t == 1 {
        lower_byte_of(*slice_index_get(value, start)) == 121
    } else if len_t == 3 {
        let b0: u8 = lower_byte_of(*slice_index_get(value, start));
        let b1: u8 = lower_byte_of(*slice_index_get(value, start + 1));
        let b2: u8 = lower_byte_of(*slice_index_get(value, start + 2));
        b0 == 121 && b1 == 101 && b2 == 115
    } else {
        false
    }
}

/// The numeric value of a run of decimal digits, most significant first.
pub open spec fn digits_value(s: Seq<u8>) -> int
    decreases s.len(),
{
    if s.len() == 0 {
        0
    } else {
        digits_value(s.drop_last()) * 10 + (s.last() - 48)
    }
}

/// Every byte is a decimal digit.
pub open spec fn all_digits(s: Seq<u8>) -> bool {
    forall|i: int| 0 <= i < s.len() ==> 48 <= #[trigger] s[i] <= 57
}

/// The bytes with one optional leading plus sign removed.
pub open spec fn sign_stripped(s: Seq<u8>) -> Seq<u8> {
    if s.len() > 0 && s[0] == 43 {
        s.drop_first()
    } else {
        s
    }
}

/// What 16-bit parsing accepts: an optional leading plus sign, then at least
/// one digit, naming a value that fits in sixteen bits.
pub open spec fn parse_u16_spec(s: Seq<u8>) -> Option<u16> {
    if sign_stripped(s).len() >= 1 && all_digits(sign_stripped(s)) && digits_value(
        sign_stripped(s),
    ) <= 65535 {
        Some(digits_value(sign_stripped(s)) as u16)
    } else {
        None
    }
}

/// Parses a 16-bit unsigned decimal: an optional plus sign, then digits.
pub fn parse_u16(s: &[u8]) -> (r: Option<u16>)
    ensures
        r == parse_u16_spec(s@),
{
    let n: usize = s.len();
    let start: usize = if n > 0 && *slice_index_get(s, 0) == 43 {
        1
    } else {
        0
    };
    let ghost t: Seq<u8> = sign_stripped(s@);
    proof {
        assert(t =~= s@.subrange(start as int, n as int));
    }
    if n == start {
        return None;
    }
    let mut acc: u32 = 0;
    let mut i: usize = start;
    while i < n
        invariant
            start <= i <= n,
            n == s@.len(),
            t == sign_stripped(s@),
            t == s@.subrange(start as int, n as int),
            all_digits(s@.subrange(start as int, i as int)),
            digits_value(s@.subrange(start as int, i as int)) >= 0,
            digits_value(s@.subrange(start as int, i as int)) > 65535 <==> acc > 65535,
            digits_value(s@.subrange(start as int, i as int)) <= 65535 ==> acc as int
                == digits_value(s@.subrange(start as int, i as int)),
            acc <= 655359,
        decreases n - i,
    {
        let ghost prefix: Seq<u8> = s@.subrange(start as int, i as int);
        let b: u8 = *slice_index_get(s, i);
        if !(48 <= b && b <= 57) {
            proof {
                assert(t[i as int - start as int] == b);
            }
            return None;
        }
        let d: u32 = (b - 48) as u32;
        proof {
            assert(s@.subrange(start as int, i as int + 1) =~= prefix.push(b));
            assert(prefix.push(b).drop_last() =~= prefix);
            assert(digits_value(prefix.push(b)) == digits_value(prefix) * 10 + (b - 48));
        }
        if acc > 65535 {
            acc = 100000;
        } else {
            acc = acc * 10 + d;
        }
        i = i + 1;
    }
    proof {
        assert(s@.subrange(start as int, n as int) =~= t);
    }
    if acc <= 65535 {
        Some(acc as u16)
    } else {
        None
    }
}

/// The position of the first `x` in the bytes, or their length if none
/// occurs.
pub open spec fn first_x(s: Seq<u8>) -> int
    decreases s.len(),
{
    if s.len() == 0 {
        0
    } else if s[0] == 120 {
        0
    } else {
        1 + first_x(s.drop_first())
    }
}

/// The first `x` is where the scan stopped.
proof fn lemma_first_x_at(s: Seq<u8>, k: int)
    requires
        0 <= k <= s.len(),
        forall|i: int| 0 <= i < k ==> #[trigger] s[i] != 120,
        k == s.len() || s[k] == 120,
    ensures
        first_x(s) == k,
    decreases k,
{
    if k > 0 {
        lemma_first_x_at(s.drop_first(), k - 1);
    }
}

/// Why a size argument was rejected.
#[derive(Clone, Copy, PartialEq, Eq, Structural, Debug)]
pub enum SizeParseError {
    /// No `x` separates the two dimensions.
    MissingSeparator,
    /// The part before the `x` is not a 16-bit decimal.
    BadWidth,
    /// The part after the `x` is not a 16-bit decimal.
    BadHeight,
}

/// Parses a terminal size argument of the form `WIDTHxHEIGHT`, splitting at
/// the first `x` and reading each side as a 16-bit decimal.
pub fn parse_size(s: &[u8]) -> (r: Result<(u16, u16), SizeParseError>)
    ensures
        ({
            let ix = first_x(s@);
            if ix == s@.len() {
                r == Result::<(u16, u16), SizeParseError>::Err(SizeParseError::MissingSeparator)
            } else {
                match parse_u16_spec(s@.subrange(0, ix)) {
                    Option::None => r == Result::<(u16, u16), SizeParseError>::Err(
                        SizeParseError::BadWidth,
                    ),
                    Option::Some(wv) => match parse_u16_spec(
                        s@.subrange(ix + 1, s@.len() as int),
                    ) {
                        Option::None => r == Result::<(u16, u16), SizeParseError>::Err(
                            SizeParseError::BadHeight,
                        ),
                        Option::Some(hv) => r == Result::<(u16, u16), SizeParseError>::Ok(
                            (wv, hv),
                        ),
                    },
                }
            }
        }),
{
    let n: usize = s.len();
    let mut ix: usize = 0;
    while ix < n && *slice_index_get(s, ix) != 120
        invariant
            ix <= n,
            n == s@.len(),
            forall|i: int| 0 <= i < ix ==> #[trigger] s@[i] != 120,
        decreases n - ix,
    {
        ix = ix + 1;
    }
    proof {
        lemma_first_x_at(s@, ix as int);
    }
    if ix == n {
        return Err(SizeParseError::MissingSeparator);
    }
    let wpart: &[u8] = vstd::slice::slice_subrange(s, 0, ix);
    let hpart: &[u8] = vstd::slice::slice_subrange(s, ix + 1, n);
    let width: u16 = match parse_u16(wpart) {
        Some(v) => v,
        None => {
            return Err(SizeParseError::BadWidth);
        },
    };
    let height: u16 = match parse_u16(hpart) {
        Some(v) => v,
        None => {
            return Err(SizeParseError::BadHeight);
        },
    };
    Ok((width, height))
}

} // verus!
