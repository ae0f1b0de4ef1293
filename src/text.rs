use vstd::prelude::*;

use crate::elements::Coordinate;

verus! {

/// What `str::to_lowercase` makes of a character sequence.
pub uninterp spec fn lower_of(s: Seq<char>) -> Seq<char>;

/// Relies on `str::to_lowercase`: the result depends on the characters alone.
#[verifier::external_body]
pub(crate) fn lowercase(s: &str) -> (r: String)
    ensures
        r@ == lower_of(s@),
{
    s.to_lowercase()
}

/// Whether two strings hold the same characters.
pub fn same_text(a: &str, b: &str) -> (r: bool)
    ensures
        r == (a@ == b@),
{
    let n = a.unicode_len();
    if n != b.unicode_len() {
        return false;
    }
    let mut i: usize = 0;
    while i < n
        invariant
            n == a@.len(),
            n == b@.len(),
            i <= n,
            forall|j: int| 0 <= j < i ==> a@[j] == b@[j],
        decreases n - i,
    {
        if a.get_char(i) != b.get_char(i) {
            return false;
        }
        i += 1;
    }
    proof {
        assert(a@ =~= b@);
    }
    true
}

pub open spec fn is_digit(c: char) -> bool {
    '0' <= c && c <= '9'
}

pub open spec fn digit_value(c: char) -> nat {
    ((c as u32) - ('0' as u32)) as nat
}

pub open spec fn all_digits(s: Seq<char>) -> bool {
    forall|i: int| 0 <= i < s.len() ==> is_digit(#[trigger] s[i])
}

/// The number that a string of decimal digits spells.
pub open spec fn digits_value(s: Seq<char>) -> nat
    decreases s.len(),
{
    if s.len() == 0 {
        0
    } else {
        digits_value(s.drop_last()) * 10 + digit_value(s.last())
    }
}

/// The text of an unsigned integer after its optional `+`.
pub open spec fn unsigned_body(s: Seq<char>) -> Seq<char> {
    if s.len() > 0 && s[0] == '+' {
        s.drop_first()
    } else {
        s
    }
}

/// An identifier as decimal text: an optional `+`, then at least one digit,
/// with a value that fits in 64 bits.
pub open spec fn id_of(s: Seq<char>) -> Option<u64> {
    let b = unsigned_body(s);
    if b.len() > 0 && all_digits(b) && digits_value(b) <= u64::MAX {
        Some(digits_value(b) as u64)
    } else {
        None
    }
}

proof fn lemma_digits_value_prefix(s: Seq<char>, k: int)
    requires
        all_digits(s),
        0 <= k <= s.len(),
    ensures
        digits_value(s.subrange(0, k)) <= digits_value(s),
    decreases s.len(),
{
    if k < s.len() {
        let p = s.drop_last();
        assert(p.subrange(0, k) =~= s.subrange(0, k));
        assert(all_digits(p)) by {
            assert forall|i: int| 0 <= i < p.len() implies is_digit(#[trigger] p[i]) by {
                assert(p[i] == s[i]);
            }
        }
        lemma_digits_value_prefix(p, k);
    } else {
        assert(s.subrange(0, k) =~= s);
    }
}

/// Reads an identifier; `None` where the text is not one.
pub fn parse_id(s: &str) -> (r: Option<u64>)
    ensures
        r == id_of(s@),
{
    let n = s.unicode_len();
    let mut i: usize = 0;
    if n > 0 && s.get_char(0) == '+' {
        i = 1;
    }
    let start = i;
    let ghost body = unsigned_body(s@);
    proof {
        assert(body =~= s@.subrange(start as int, n as int));
    }
    if start == n {
        return None;
    }
    let mut v: u64 = 0;
    while i < n
        invariant
            start <= i <= n,
            n == s@.len(),
            body == s@.subrange(start as int, n as int),
            body == unsigned_body(s@),
            all_digits(s@.subrange(start as int, i as int)),
            v as nat == digits_value(s@.subrange(start as int, i as int)),
        decreases n - i,
    {
        let c = s.get_char(i);
        let ghost next = s@.subrange(start as int, i + 1);
        proof {
            assert(next.drop_last() =~= s@.subrange(start as int, i as int));
            assert(body.subrange(0, i + 1 - start) =~= next);
            assert(next.last() == c);
            assert(body[i - start] == c);
        }
        if !('0' <= c && c <= '9') {
            assert(!is_digit(body[i - start]));
            return None;
        }
        let d = (c as u32 - '0' as u32) as u64;
        let w = match v.checked_mul(10) {
            Some(m) => m.checked_add(d),
            None => None,
        };
        match w {
            Some(w) => {
                v = w;
            },
            None => {
                proof {
                    if all_digits(body) {
                        lemma_digits_value_prefix(body, i + 1 - start);
                    }
                }
                return None;
            },
        }
        i += 1;
        proof {
            assert(all_digits(next)) by {
                assert forall|j: int| 0 <= j < next.len() implies is_digit(#[trigger] next[j]) by {
                    if j < next.len() - 1 {
                        assert(next[j] == s@.subrange(start as int, i - 1)[j]);
                    }
                }
            }
        }
    }
    proof {
        assert(body =~= s@.subrange(start as int, i as int));
    }
    Some(v)
}

/// What a scan of decimal text has seen so far: whether a point came, how many
/// digits, the number they spell and how many of them follow the point.
pub struct DecimalScan {
    pub dot: bool,
    pub digits: nat,
    pub mag: nat,
    pub scale: nat,
}

/// Scans digits with at most one decimal point; `None` at any other character.
pub open spec fn scan_decimal(s: Seq<char>) -> Option<DecimalScan>
    decreases s.len(),
{
    if s.len() == 0 {
        Some(DecimalScan { dot: false, digits: 0, mag: 0, scale: 0 })
    } else {
        match scan_decimal(s.drop_last()) {
            None => None,
            Some(p) => if is_digit(s.last()) {
                Some(
                    DecimalScan {
                        dot: p.dot,
                        digits: p.digits + 1,
                        mag: p.mag * 10 + digit_value(s.last()),
                        scale: if p.dot {
                            p.scale + 1
                        } else {
                            p.scale
                        },
                    },
                )
            } else if s.last() == '.' && !p.dot {
                Some(DecimalScan { dot: true, ..p })
            } else {
                None
            },
        }
    }
}

pub open spec fn is_sign(c: char) -> bool {
    c == '-' || c == '+'
}

/// A coordinate as decimal text: an optional sign, then digits with at most one
/// decimal point and at least one digit. The value must fit the representation.
pub open spec fn coordinate_of(s: Seq<char>) -> Option<Coordinate> {
    let neg = s.len() > 0 && s[0] == '-';
    let body = if s.len() > 0 && is_sign(s[0]) {
        s.drop_first()
    } else {
        s
    };
    match scan_decimal(body) {
        Some(p) => if p.digits > 0 && p.mag <= i128::MAX && p.scale <= u32::MAX {
            Some(
                Coordinate {
                    mantissa: (if neg {
                        -p.mag
                    } else {
                        p.mag as int
                    }) as i128,
                    scale: p.scale as u32,
                },
            )
        } else {
            None
        },
        None => None,
    }
}

proof fn lemma_scan_prefix(s: Seq<char>, k: int)
    requires
        scan_decimal(s) is Some,
        0 <= k <= s.len(),
    ensures
        scan_decimal(s.subrange(0, k)) is Some,
        scan_decimal(s.subrange(0, k))->0.mag <= scan_decimal(s)->0.mag,
        scan_decimal(s.subrange(0, k))->0.scale <= scan_decimal(s)->0.scale,
    decreases s.len(),
{
    if k < s.len() {
        let p = s.drop_last();
        assert(p.subrange(0, k) =~= s.subrange(0, k));
        lemma_scan_prefix(p, k);
    } else {
        assert(s.subrange(0, k) =~= s);
    }
}

/// Reads a coordinate; `None` where the text is not one.
pub fn parse_coordinate(s: &str) -> (r: Option<Coordinate>)
    ensures
        r == coordinate_of(s@),
{
    let n = s.unicode_len();
    let mut neg = false;
    let mut i: usize = 0;
    if n > 0 {
        let c = s.get_char(0);
        if c == '-' || c == '+' {
            neg = c == '-';
            i = 1;
        }
    }
    let start = i;
    let ghost body = if s@.len() > 0 && is_sign(s@[0]) {
        s@.drop_first()
    } else {
        s@
    };
    proof {
        assert(body =~= s@.subrange(start as int, n as int));
    }
    let mut dot = false;
    let mut digits: usize = 0;
    let mut mag: i128 = 0;
    let mut scale: u32 = 0;
    while i < n
        invariant
            start <= i <= n,
            n == s@.len(),
            body == s@.subrange(start as int, n as int),
            body == (if s@.len() > 0 && is_sign(s@[0]) {
                s@.drop_first()
            } else {
                s@
            }),
            neg == (s@.len() > 0 && s@[0] == '-'),
            digits <= i,
            mag >= 0,
            scan_decimal(s@.subrange(start as int, i as int)) == Some(
                DecimalScan { dot, digits: digits as nat, mag: mag as nat, scale: scale as nat },
            ),
        decreases n - i,
    {
        let c = s.get_char(i);
        let ghost next = s@.subrange(start as int, i + 1);
        proof {
            assert(next.drop_last() =~= s@.subrange(start as int, i as int));
            assert(body.subrange(0, i + 1 - start) =~= next);
            assert(next.last() == c);
        }
        if '0' <= c && c <= '9' {
            let d = (c as u32 - '0' as u32) as i128;
            let w = match mag.checked_mul(10) {
                Some(m) => m.checked_add(d),
                None => None,
            };
            let sc = if dot {
                scale.checked_add(1)
            } else {
                Some(scale)
            };
            match (w, sc) {
                (Some(w), Some(sc)) => {
                    mag = w;
                    scale = sc;
                },
                _ => {
                    proof {
                        if scan_decimal(body) is Some {
                            lemma_scan_prefix(body, i + 1 - start);
                        }
                    }
                    return None;
                },
            }
            digits += 1;
        } else if c == '.' && !dot {
            dot = true;
        } else {
            proof {
                if scan_decimal(body) is Some {
                    lemma_scan_prefix(body, i + 1 - start);
                }
            }
            return None;
        }
        i += 1;
    }
    proof {
        assert(body =~= s@.subrange(start as int, i as int));
    }
    if digits == 0 {
        return None;
    }
    let mantissa = if neg {
        -mag
    } else {
        mag
    };
    Some(Coordinate { mantissa, scale })
}

} // verus!
