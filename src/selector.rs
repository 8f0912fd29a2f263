//! Textual bit-range selectors `[hi:lo]`: inclusive, high end first, each end
//! a decimal bit index or `MAX` for the top bit of a vector register.
//!
//! The leftmost `[` followed on the same line by a `:` and then a `]` opens
//! the selector; text around it is ignored. A malformed end (empty, not
//! decimal, or out of the register) makes the selector malformed, as does
//! `lo > hi`.

use vstd::prelude::*;
use vstd::string::StringSliceAdditionalSpecFns;

verus! {

/// The index that `MAX` names.
pub const TOP_BIT: usize = 511;

pub open spec fn is_digit(c: u8) -> bool {
    48 <= c <= 57
}

/// The number a string of decimal digits spells.
pub open spec fn decimal_value(t: Seq<u8>) -> nat
    decreases t.len(),
{
    if t.len() == 0 {
        0
    } else {
        decimal_value(t.drop_last()) * 10 + (t.last() - 48) as nat
    }
}

/// The text `MAX`.
pub open spec fn max_token() -> Seq<u8> {
    seq![77u8, 65u8, 88u8]
}

/// The bit index that one end of a selector names.
pub open spec fn token_index(t: Seq<u8>) -> Option<nat> {
    if t == max_token() {
        Some(TOP_BIT as nat)
    } else if t.len() > 0 && forall|i: int| 0 <= i < t.len() ==> is_digit(#[trigger] t[i]) {
        Some(decimal_value(t))
    } else {
        None
    }
}

/// `at` holds the first `sym` after position `from`, with no line break
/// between them.
pub open spec fn first_after(b: Seq<u8>, from: int, at: int, sym: u8) -> bool {
    &&& from < at < b.len()
    &&& b[at] == sym
    &&& forall|i: int| from < i < at ==> #[trigger] b[i] != sym && b[i] != 10
}

/// A selector `[hi:lo]` opens at `p`: a `[` there, then a `:`, then a `]`,
/// all on one line.
pub open spec fn opens_at(b: Seq<u8>, p: int) -> bool {
    &&& 0 <= p < b.len()
    &&& b[p] == 91
    &&& exists|c: int, d: int| first_after(b, p, c, 58) && first_after(b, c, d, 93)
}

/// `p` is the leftmost place where a selector opens.
pub open spec fn leftmost_open(b: Seq<u8>, p: int) -> bool {
    &&& opens_at(b, p)
    &&& forall|q: int| 0 <= q < p ==> !#[trigger] opens_at(b, q)
}

/// The inclusive bounds `(hi, lo)` that selector text names, when it holds a
/// well-formed `[hi:lo]` with `lo <= hi <= MAX`. The selector may stand
/// anywhere in the text; the leftmost one counts, its ends running to the
/// first `:` and then the first `]`.
pub open spec fn selector_range(b: Seq<u8>) -> Option<(nat, nat)> {
    if exists|p: int| leftmost_open(b, p) {
        let p = choose|p: int| leftmost_open(b, p);
        let (c, d) = choose|c: int, d: int| first_after(b, p, c, 58) && first_after(b, c, d, 93);
        match (token_index(b.subrange(p + 1, c)), token_index(b.subrange(c + 1, d))) {
            (Some(hi), Some(lo)) => if lo <= hi <= TOP_BIT {
                Some((hi, lo))
            } else {
                None
            },
            _ => None,
        }
    } else {
        None
    }
}

proof fn lemma_first_after_unique(b: Seq<u8>, from: int, x: int, y: int, sym: u8)
    requires
        first_after(b, from, x, sym),
        first_after(b, from, y, sym),
    ensures
        x == y,
{
    if x < y {
        assert(b[x] != sym);
    } else if y < x {
        assert(b[y] != sym);
    }
}

proof fn lemma_leftmost_unique(b: Seq<u8>, p: int, q: int)
    requires
        leftmost_open(b, p),
        leftmost_open(b, q),
    ensures
        p == q,
{
    if p < q {
        assert(!opens_at(b, p));
    } else if q < p {
        assert(!opens_at(b, q));
    }
}

/// The first `sym` after `from` on the same line.
fn find_after(b: &[u8], from: usize, sym: u8) -> (r: Option<usize>)
    requires
        from < b@.len(),
        sym != 10,
    ensures
        match r {
            Some(at) => first_after(b@, from as int, at as int, sym),
            None => forall|at: int| !#[trigger] first_after(b@, from as int, at, sym),
        },
{
    let mut i: usize = from;
    while i < b.len() - 1
        invariant
            from <= i < b@.len(),
            forall|j: int| from < j <= i ==> #[trigger] b@[j] != sym && b@[j] != 10,
        decreases b@.len() - i,
    {
        i += 1;
        if b[i] == sym {
            return Some(i);
        }
        if b[i] == 10 {
            assert forall|at: int| !#[trigger] first_after(b@, from as int, at, sym) by {
                if first_after(b@, from as int, at, sym) && at > i {
                    assert(b@[i as int] != 10);
                }
            }
            return None;
        }
    }
    None
}

/// Appending a digit never makes the number smaller.
proof fn lemma_decimal_grows(t: Seq<u8>, i: int)
    requires
        0 <= i <= t.len(),
        forall|j: int| 0 <= j < t.len() ==> is_digit(#[trigger] t[j]),
    ensures
        decimal_value(t.subrange(0, i)) <= decimal_value(t),
    decreases t.len() - i,
{
    if i < t.len() {
        lemma_decimal_grows(t, i + 1);
        let p = t.subrange(0, i + 1);
        assert(p.drop_last() =~= t.subrange(0, i));
    } else {
        assert(t.subrange(0, i) =~= t);
    }
}

/// The index that `b[from..to]` names, when it is at most `MAX`.
fn parse_token(b: &[u8], from: usize, to: usize) -> (r: Option<usize>)
    requires
        from <= to <= b@.len(),
    ensures
        r == match token_index(b@.subrange(from as int, to as int)) {
            Some(v) => if v <= TOP_BIT {
                Some(v as usize)
            } else {
                None
            },
            None => None,
        },
{
    let ghost t = b@.subrange(from as int, to as int);
    if to - from == 3 && b[from] == 77 && b[from + 1] == 65 && b[from + 2] == 88 {
        assert(t =~= max_token());
        return Some(TOP_BIT);
    }
    assert(t != max_token()) by {
        if t == max_token() {
            assert(t.len() == 3 && t[0] == 77 && t[1] == 65 && t[2] == 88);
            assert(b@[from as int] == t[0] && b@[from + 1] == t[1] && b@[from + 2] == t[2]);
        }
    }
    if from == to {
        return None;
    }
    let mut value: usize = 0;
    let mut i: usize = from;
    while i < to
        invariant
            from <= i <= to <= b@.len(),
            t == b@.subrange(from as int, to as int),
            t != max_token(),
            value <= TOP_BIT,
            forall|j: int| 0 <= j < i - from ==> is_digit(#[trigger] t[j]),
            value == decimal_value(t.subrange(0, i - from)),
        decreases to - i,
    {
        let c = b[i];
        if c < 48 || c > 57 {
            assert(!is_digit(t[i - from]));
            return None;
        }
        value = value * 10 + (c - 48) as usize;
        i += 1;
        proof {
            let p = t.subrange(0, i - from);
            assert(p.drop_last() =~= t.subrange(0, i - from - 1));
        }
        if value > TOP_BIT {
            proof {
                if forall|j: int| 0 <= j < t.len() ==> is_digit(#[trigger] t[j]) {
                    lemma_decimal_grows(t, i - from);
                }
            }
            return None;
        }
    }
    assert(t.subrange(0, i - from) =~= t);
    Some(value)
}

/// The bounds `(hi, lo)` of the leftmost selector `[hi:lo]` in `s`, or `None`
/// when there is none or it is malformed.
pub fn extract_values(s: &str) -> (r: Option<(usize, usize)>)
    ensures
        r == match selector_range(s.spec_bytes()) {
            Some((hi, lo)) => Some((hi as usize, lo as usize)),
            None => None,
        },
{
    let b = s.as_bytes();
    let n = b.len();
    let mut p: usize = 0;
    while p < n
        invariant
            p <= n,
            n == b@.len(),
            b@ == s.spec_bytes(),
            forall|q: int| 0 <= q < p ==> !#[trigger] opens_at(b@, q),
        decreases n - p,
    {
        if b[p] == 91 {
            if let Some(c) = find_after(b, p, 58) {
                if let Some(d) = find_after(b, c, 93) {
                    proof {
                        assert(first_after(b@, p as int, c as int, 58) && first_after(b@, c as int, d as int, 93));
                        assert(opens_at(b@, p as int));
                        assert(leftmost_open(b@, p as int));
                        let p2 = choose|p2: int| leftmost_open(b@, p2);
                        lemma_leftmost_unique(b@, p as int, p2);
                        let (c2, d2) = choose|c2: int, d2: int|
                            first_after(b@, p as int, c2, 58) && first_after(b@, c2, d2, 93);
                        lemma_first_after_unique(b@, p as int, c as int, c2, 58);
                        lemma_first_after_unique(b@, c as int, d as int, d2, 93);
                        assert(selector_range(b@) == match (
                            token_index(b@.subrange(p + 1, c as int)),
                            token_index(b@.subrange(c + 1, d as int)),
                        ) {
                            (Some(hi), Some(lo)) => if lo <= hi <= TOP_BIT {
                                Some((hi, lo))
                            } else {
                                None
                            },
                            _ => None,
                        });
                    }
                    let hi = match parse_token(b, p + 1, c) {
                        Some(v) => v,
                        None => {
                            return None;
                        },
                    };
                    let lo = match parse_token(b, c + 1, d) {
                        Some(v) => v,
                        None => {
                            return None;
                        },
                    };
                    if lo <= hi {
                        return Some((hi, lo));
                    } else {
                        return None;
                    }
                } else {
                    proof {
                        if opens_at(b@, p as int) {
                            let (c2, d2) = choose|c2: int, d2: int|
                                first_after(b@, p as int, c2, 58) && first_after(b@, c2, d2, 93);
                            lemma_first_after_unique(b@, p as int, c as int, c2, 58);
                        }
                    }
                }
            }
        }
        p += 1;
    }
    None
}

} // verus!
