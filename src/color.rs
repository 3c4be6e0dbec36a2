//! Watermark colour and pattern options.
use crate::text::chars_of;
use vstd::prelude::*;
use vstd::string::StrSliceExecFns;

verus! {

/// Tiling pattern of the watermark. Every variant is drawn as the diagonal
/// pattern.
#[derive(Clone, Copy, Debug, PartialEq, Eq, Structural)]
pub enum Pattern {
    Diagonal,
    Horizontal,
    Vertical,
    Random,
    CrossDiagonal,
}

/// Alpha used when a colour is given with three components.
pub const DEFAULT_ALPHA: u8 = 64;

/// `s` cut at every occurrence of `sep`; an empty `s` gives one empty piece.
pub open spec fn split_on(s: Seq<char>, sep: char) -> Seq<Seq<char>>
    decreases s.len(),
{
    if s.len() == 0 {
        seq![Seq::<char>::empty()]
    } else {
        let rest = split_on(s.drop_last(), sep);
        if s.last() == sep {
            rest.push(Seq::<char>::empty())
        } else {
            rest.update(rest.len() - 1, rest.last().push(s.last()))
        }
    }
}

/// Cutting a text always gives at least one piece.
pub proof fn lemma_split_on_nonempty(s: Seq<char>, sep: char)
    ensures
        split_on(s, sep).len() >= 1,
    decreases s.len(),
{
    if s.len() > 0 {
        lemma_split_on_nonempty(s.drop_last(), sep);
    }
}

pub open spec fn is_digit(c: char) -> bool {
    '0' <= c && c <= '9'
}

/// Value of a string of decimal digits.
pub open spec fn digits_value(d: Seq<char>) -> int
    decreases d.len(),
{
    if d.len() == 0 {
        0
    } else {
        digits_value(d.drop_last()) * 10 + (d.last() as int - '0' as int)
    }
}

/// The digits of a number: the text without one leading `+`.
pub open spec fn unsigned_digits(s: Seq<char>) -> Seq<char> {
    if s.len() > 0 && s[0] == '+' {
        s.drop_first()
    } else {
        s
    }
}

/// A byte written in decimal, as `u8`'s `FromStr` reads it: an optional
/// `+`, then one or more digits whose value is at most 255.
pub open spec fn parse_u8_spec(s: Seq<char>) -> Option<u8> {
    let d = unsigned_digits(s);
    if d.len() > 0 && (forall|i: int| 0 <= i < d.len() ==> is_digit(#[trigger] d[i])) && digits_value(d)
        <= 255 {
        Some(digits_value(d) as u8)
    } else {
        None
    }
}

pub open spec fn count_error_text() -> Seq<char> {
    "Text color must have 3 or 4 components (R,G,B,A, with alpha being optional)"@
}

pub open spec fn component_error_prefix() -> Seq<char> {
    "Invalid value for RGBA component: "@
}

/// The components of a colour text: three get the default alpha appended.
pub open spec fn rgba_components(value: Seq<char>) -> Seq<Seq<char>> {
    let parts = split_on(value, ',');
    if parts.len() == 3 {
        parts.push("64"@)
    } else {
        parts
    }
}

/// `j` is the first of `parts` that does not read as a byte.
pub open spec fn first_bad_component(parts: Seq<Seq<char>>, j: int) -> bool {
    &&& 0 <= j < parts.len()
    &&& parse_u8_spec(parts[j]) is None
    &&& forall|k: int| 0 <= k < j ==> #[trigger] parse_u8_spec(parts[k]) is Some
}

proof fn lemma_digits_value_nonneg(d: Seq<char>)
    requires
        forall|i: int| 0 <= i < d.len() ==> is_digit(#[trigger] d[i]),
    ensures
        digits_value(d) >= 0,
    decreases d.len(),
{
    if d.len() > 0 {
        let e = d.drop_last();
        assert forall|i: int| 0 <= i < e.len() implies is_digit(#[trigger] e[i]) by {
            assert(e[i] == d[i]);
        }
        lemma_digits_value_nonneg(e);
    }
}

/// Reads a byte written in decimal from `s[start..end]`.
fn parse_u8_range(s: &Vec<char>, start: usize, end: usize) -> (r: Option<u8>)
    requires
        start <= end <= s@.len(),
    ensures
        r == parse_u8_spec(s@.subrange(start as int, end as int)),
{
    let ghost t = s@.subrange(start as int, end as int);
    let mut i: usize = start;
    if i < end && s[i] == '+' {
        i = i + 1;
    }
    let ghost d = unsigned_digits(t);
    assert(d =~= s@.subrange(i as int, end as int));
    if i == end {
        return None;
    }
    let first: usize = i;
    let mut v: u32 = 0;
    while i < end
        invariant
            start <= first <= i <= end <= s@.len(),
            t == s@.subrange(start as int, end as int),
            d == unsigned_digits(t),
            d.len() > 0,
            d =~= s@.subrange(first as int, end as int),
            forall|k: int| first <= k < i ==> is_digit(#[trigger] s@[k]),
            v == if digits_value(s@.subrange(first as int, i as int)) >= 256 {
                256
            } else {
                digits_value(s@.subrange(first as int, i as int))
            },
        decreases end - i,
    {
        let c: char = s[i];
        if !('0' <= c && c <= '9') {
            proof {
                assert(d[i - first] == c);
                assert(!is_digit(d[i - first]));
            }
            return None;
        }
        let ghost pre = s@.subrange(first as int, i as int);
        let ghost next = s@.subrange(first as int, i + 1);
        proof {
            assert(next.drop_last() =~= pre);
            assert(forall|k: int| 0 <= k < pre.len() ==> is_digit(#[trigger] pre[k]));
            lemma_digits_value_nonneg(pre);
        }
        let dv: u32 = (c as u32) - ('0' as u32);
        let nv: u32 = v * 10 + dv;
        v = if nv >= 256 {
            256
        } else {
            nv
        };
        i = i + 1;
    }
    proof {
        assert(s@.subrange(first as int, end as int) =~= d);
    }
    if v <= 255 {
        Some(v as u8)
    } else {
        None
    }
}

/// Reads a colour written `R,G,B` or `R,G,B,A`, each component a byte in
/// decimal; alpha is 64 when left out.
pub fn parse_rgba(value: &str) -> (r: Result<[u8; 4], String>)
    ensures
        split_on(value@, ',').len() < 3 || split_on(value@, ',').len() > 4 ==> match r {
            Ok(_) => false,
            Err(e) => e@ == count_error_text(),
        },
        ({
            let parts = rgba_components(value@);
            3 <= split_on(value@, ',').len() <= 4 ==> match r {
                Ok(c) => forall|k: int|
                    0 <= k < 4 ==> parse_u8_spec(#[trigger] parts[k]) == Some(c@[k]),
                Err(e) => exists|j: int|
                    first_bad_component(parts, j) && e@ == component_error_prefix() + parts[j],
            }
        }),
{
    let chars: Vec<char> = chars_of(value);
    // (start, end) of every comma-separated piece.
    let mut starts: Vec<usize> = Vec::new();
    let mut ends: Vec<usize> = Vec::new();
    let mut cur: usize = 0;
    let mut i: usize = 0;
    while i < chars.len()
        invariant
            chars@ == value@,
            i <= chars@.len(),
            cur <= i,
            starts@.len() == ends@.len(),
            ({
                let parts = split_on(chars@.take(i as int), ',');
                &&& parts.len() == starts@.len() + 1
                &&& parts.last() == chars@.subrange(cur as int, i as int)
                &&& forall|k: int|
                    0 <= k < starts@.len() ==> starts@[k] <= ends@[k] <= chars@.len() && parts[k]
                        == chars@.subrange(#[trigger] starts@[k] as int, ends@[k] as int)
            }),
        decreases chars@.len() - i,
    {
        proof {
            assert(chars@.take(i + 1).drop_last() =~= chars@.take(i as int));
            lemma_split_on_nonempty(chars@.take(i as int), ',');
        }
        if chars[i] == ',' {
            starts.push(cur);
            ends.push(i);
            cur = i + 1;
            proof {
                assert(chars@.subrange(cur as int, i + 1) =~= Seq::<char>::empty());
            }
        } else {
            proof {
                assert(chars@.subrange(cur as int, i + 1) =~= chars@.subrange(cur as int, i as int).push(
                    chars@[i as int],
                ));
            }
        }
        i = i + 1;
    }
    starts.push(cur);
    ends.push(chars.len());
    let ghost parts = split_on(value@, ',');
    proof {
        assert(chars@.take(chars@.len() as int) =~= chars@);
    }
    let count: usize = starts.len();
    if count < 3 || count > 4 {
        return Err(String::from_str(
            "Text color must have 3 or 4 components (R,G,B,A, with alpha being optional)",
        ));
    }
    let ghost comps = rgba_components(value@);
    proof {
        reveal_strlit("64");
        assert forall|m: int| 0 <= m < count implies #[trigger] comps[m] == parts[m] by {}
    }
    let mut out: [u8; 4] = [0, 0, 0, DEFAULT_ALPHA];
    let mut k: usize = 0;
    while k < count
        invariant
            3 <= count <= 4,
            count == parts.len(),
            parts == split_on(value@, ','),
            starts@.len() == count,
            ends@.len() == count,
            chars@ == value@,
            k <= count,
            forall|m: int|
                0 <= m < count ==> starts@[m] <= ends@[m] <= chars@.len() && parts[m]
                    == chars@.subrange(#[trigger] starts@[m] as int, ends@[m] as int),
            comps == rgba_components(value@),
            forall|m: int| 0 <= m < count ==> #[trigger] comps[m] == parts[m],
            forall|m: int| 0 <= m < k ==> parse_u8_spec(#[trigger] comps[m]) == Some(out@[m]),
            count == 3 ==> out@[3] == DEFAULT_ALPHA,
        decreases count - k,
    {
        match parse_u8_range(&chars, starts[k], ends[k]) {
            Some(b) => {
                out[k] = b;
            },
            None => {
                let mut msg: String = String::from_str("Invalid value for RGBA component: ");
                msg.append(value.substring_char(starts[k], ends[k]));
                proof {
                    assert(comps[k as int] == chars@.subrange(starts@[k as int] as int, ends@[k as int] as int));
                    assert(first_bad_component(comps, k as int));
                }
                return Err(msg);
            },
        }
        k = k + 1;
    }
    proof {
        if count == 3 {
            reveal_strlit("64");
            let d = "64"@;
            assert(d =~= seq!['6', '4']);
            assert(d.drop_last() =~= seq!['6']);
            assert(d.drop_last().drop_last() =~= Seq::<char>::empty());
            reveal_with_fuel(digits_value, 3);
            assert(digits_value(d) == 64);
            assert(parse_u8_spec(d) == Some(64u8));
            assert(comps[3] == d);
        }
    }
    Ok(out)
}

} // verus!
