//! Semantic versions of the form `major.minor.patch` and their `vX.Y.Z` tag grammar.
use vstd::prelude::*;
use vstd::string::StringSliceAdditionalSpecFns;

verus! {

/// `v`, the first byte of a release tag.
pub const LETTER_V: u8 = 118;

/// `.`, the separator between counters.
pub const DOT: u8 = 46;

/// `0`
pub const DIGIT_ZERO: u8 = 48;

/// `9`
pub const DIGIT_NINE: u8 = 57;

/// A release version, three non-negative counters.
#[derive(Debug, Copy, Clone, Default, PartialEq, Eq, Structural)]
pub struct Version {
    pub major: u64,
    pub minor: u64,
    pub patch: u64,
}

pub open spec fn is_digit(b: u8) -> bool {
    DIGIT_ZERO <= b && b <= DIGIT_NINE
}

pub open spec fn all_digits(s: Seq<u8>) -> bool {
    forall|i: int| 0 <= i < s.len() ==> is_digit(#[trigger] s[i])
}

/// The number that a run of decimal digits denotes, read left to right.
pub open spec fn digits_value(s: Seq<u8>) -> nat
    decreases s.len(),
{
    if s.len() == 0 {
        0
    } else {
        digits_value(s.drop_last()) * 10 + (s.last() - DIGIT_ZERO) as nat
    }
}

/// The pieces of `t` between the `.` bytes (always at least one piece).
pub open spec fn split_dots(t: Seq<u8>) -> Seq<Seq<u8>>
    decreases t.len(),
{
    if t.len() == 0 {
        seq![Seq::<u8>::empty()]
    } else {
        let parts = split_dots(t.drop_last());
        if t.last() == DOT {
            parts.push(Seq::<u8>::empty())
        } else {
            parts.update(parts.len() - 1, parts.last().push(t.last()))
        }
    }
}

/// A version counter as written in a tag: one or more digits, denoting a `u64`.
pub open spec fn is_counter(p: Seq<u8>) -> bool {
    p.len() > 0 && all_digits(p) && digits_value(p) <= u64::MAX
}

/// What a tag denotes: `v` followed by exactly three counters joined by `.`, nothing else.
pub open spec fn parsed(b: Seq<u8>) -> Option<Version> {
    let parts = split_dots(b.skip(1));
    if b.len() > 0 && b[0] == LETTER_V && parts.len() == 3 && is_counter(parts[0]) && is_counter(
        parts[1],
    ) && is_counter(parts[2]) {
        Some(
            Version {
                major: digits_value(parts[0]) as u64,
                minor: digits_value(parts[1]) as u64,
                patch: digits_value(parts[2]) as u64,
            },
        )
    } else {
        None
    }
}

/// The minimal decimal form of `n`.
pub open spec fn decimal(n: nat) -> Seq<u8>
    decreases n,
{
    if n < 10 {
        seq![(DIGIT_ZERO + n) as u8]
    } else {
        decimal(n / 10).push((DIGIT_ZERO + n % 10) as u8)
    }
}

/// The dotted form `major.minor.patch` of a version.
pub open spec fn dotted(v: Version) -> Seq<u8> {
    decimal(v.major as nat) + seq![DOT] + decimal(v.minor as nat) + seq![DOT] + decimal(
        v.patch as nat,
    )
}

/// The characters of an ASCII byte string.
pub open spec fn ascii_chars(b: Seq<u8>) -> Seq<char> {
    b.map_values(|x: u8| x as char)
}

pub proof fn lemma_split_len(t: Seq<u8>)
    ensures
        split_dots(t).len() >= 1,
    decreases t.len(),
{
    if t.len() > 0 {
        lemma_split_len(t.drop_last());
    }
}

/// Appending bytes never changes the finished pieces, only extends the last one
/// or starts new ones.
pub proof fn lemma_split_extend(t: Seq<u8>, u: Seq<u8>)
    ensures
        split_dots(t + u).len() >= split_dots(t).len(),
        forall|k: int|
            0 <= k < split_dots(t).len() - 1 ==> #[trigger] split_dots(t + u)[k] == split_dots(
                t,
            )[k],
        split_dots(t).last().is_prefix_of(split_dots(t + u)[split_dots(t).len() - 1]),
    decreases u.len(),
{
    lemma_split_len(t);
    if u.len() == 0 {
        assert(t + u =~= t);
    } else {
        let u0 = u.drop_last();
        lemma_split_extend(t, u0);
        assert((t + u).drop_last() =~= t + u0);
        assert((t + u).last() == u.last());
        lemma_split_len(t + u0);
        let p0 = split_dots(t + u0);
        let n = split_dots(t).len() - 1;
        if u.last() != DOT && p0.len() - 1 == n {
            assert(split_dots(t).last().is_prefix_of(p0.last().push(u.last())));
        }
    }
}

/// Appending bytes without a `.` extends the last piece by exactly those bytes.
pub proof fn lemma_split_append_plain(t: Seq<u8>, u: Seq<u8>)
    requires
        forall|i: int| 0 <= i < u.len() ==> u[i] != DOT,
    ensures
        split_dots(t).len() >= 1,
        split_dots(t + u) == split_dots(t).update(
            split_dots(t).len() - 1,
            split_dots(t).last() + u,
        ),
    decreases u.len(),
{
    lemma_split_len(t);
    if u.len() == 0 {
        assert(t + u =~= t);
        assert(split_dots(t).last() + u =~= split_dots(t).last());
        assert(split_dots(t).update(split_dots(t).len() - 1, split_dots(t).last())
            =~= split_dots(t));
    } else {
        let u0 = u.drop_last();
        lemma_split_append_plain(t, u0);
        assert((t + u).drop_last() =~= t + u0);
        assert(u[u.len() - 1] != DOT);
        assert(split_dots(t).last() + u0 + seq![u.last()] =~= split_dots(t).last() + u);
        assert((split_dots(t).last() + u0).push(u.last()) =~= split_dots(t).last() + u);
        let big = split_dots(t + u0);
        let l = split_dots(t).len() - 1;
        assert(big.len() - 1 == l);
        assert(big.last() == split_dots(t).last() + u0);
        assert(split_dots(t + u) == big.update(l, big.last().push(u.last())));
        assert(split_dots(t + u) =~= split_dots(t).update(
            split_dots(t).len() - 1,
            split_dots(t).last() + u,
        ));
    }
}

/// A longer run of digits never denotes a smaller number.
pub proof fn lemma_digits_value_prefix(p: Seq<u8>, q: Seq<u8>)
    requires
        p.is_prefix_of(q),
    ensures
        digits_value(p) <= digits_value(q),
    decreases q.len(),
{
    if p.len() < q.len() {
        assert(p.is_prefix_of(q.drop_last()));
        lemma_digits_value_prefix(p, q.drop_last());
    } else {
        assert(p =~= q);
    }
}

pub proof fn lemma_decimal(n: nat)
    ensures
        decimal(n).len() > 0,
        all_digits(decimal(n)),
        digits_value(decimal(n)) == n,
    decreases n,
{
    if n < 10 {
        assert(decimal(n).drop_last() =~= Seq::<u8>::empty());
        assert(digits_value(Seq::<u8>::empty()) == 0);
        assert(decimal(n).last() == (DIGIT_ZERO + n) as u8);
        assert(digits_value(decimal(n)) == digits_value(decimal(n).drop_last()) * 10 + (
        decimal(n).last() - DIGIT_ZERO) as nat);
    } else {
        lemma_decimal(n / 10);
        let d = decimal(n);
        assert(d.drop_last() =~= decimal(n / 10));
        assert(d.last() - DIGIT_ZERO == n % 10);
        assert(digits_value(d) == digits_value(d.drop_last()) * 10 + (d.last() - DIGIT_ZERO) as nat);
        assert(n == (n / 10) * 10 + n % 10) by (nonlinear_arith);
        assert(all_digits(d)) by {
            assert forall|k: int| 0 <= k < d.len() implies is_digit(#[trigger] d[k]) by {
                if k < d.len() - 1 {
                    assert(d[k] == d.drop_last()[k]);
                }
            }
        }
    }
}

/// Rendering a version in dotted form and reading it back as a `v` tag gives
/// the same version: every tag `v{a}.{b}.{c}` without leading zeros denotes
/// `(a, b, c)`, and that version renders as `{a}.{b}.{c}` again.
pub proof fn lemma_parse_dotted(v: Version)
    ensures
        parsed(seq![LETTER_V] + dotted(v)) == Some(v),
{
    let x = decimal(v.major as nat);
    let y = decimal(v.minor as nat);
    let z = decimal(v.patch as nat);
    lemma_decimal(v.major as nat);
    lemma_decimal(v.minor as nat);
    lemma_decimal(v.patch as nat);
    let e = Seq::<u8>::empty();
    let b = seq![LETTER_V] + dotted(v);
    assert(b.skip(1) =~= e + x + seq![DOT] + y + seq![DOT] + z);
    assert forall|i: int| 0 <= i < x.len() implies x[i] != DOT by {
        assert(is_digit(x[i]));
    }
    assert forall|i: int| 0 <= i < y.len() implies y[i] != DOT by {
        assert(is_digit(y[i]));
    }
    assert forall|i: int| 0 <= i < z.len() implies z[i] != DOT by {
        assert(is_digit(z[i]));
    }
    lemma_split_append_plain(e, x);
    assert(e + x + seq![DOT] =~= (e + x).push(DOT));
    assert((e + x).push(DOT).drop_last() =~= e + x);
    assert(split_dots(e + x + seq![DOT]) =~= seq![x, e]);
    lemma_split_append_plain(e + x + seq![DOT], y);
    assert(split_dots(e + x + seq![DOT] + y) =~= seq![x, y]);
    let t2 = e + x + seq![DOT] + y;
    assert(t2 + seq![DOT] =~= t2.push(DOT));
    assert(t2.push(DOT).drop_last() =~= t2);
    assert(split_dots(t2 + seq![DOT]) =~= seq![x, y, e]);
    lemma_split_append_plain(t2 + seq![DOT], z);
    assert(split_dots(b.skip(1)) =~= seq![x, y, z]);
}

impl Version {
    /// Reads a release tag `vMAJOR.MINOR.PATCH`; anything else gives `None`.
    pub fn parse(s: &str) -> (r: Option<Version>)
        ensures
            r == parsed(s.spec_bytes()),
    {
        parse_tag(s.as_bytes())
    }

    /// The dotted form `major.minor.patch`, each counter in minimal decimal.
    pub fn to_string(&self) -> (r: String)
        ensures
            r@ == ascii_chars(dotted(*self)),
    {
        let mut out = String::new();
        append_ascii(&mut out, &self.dotted_bytes());
        out
    }

    /// The dotted form `major.minor.patch` as bytes.
    pub fn dotted_bytes(&self) -> (r: Vec<u8>)
        ensures
            r@ == dotted(*self),
    {
        let mut out: Vec<u8> = Vec::new();
        push_decimal(&mut out, self.major);
        out.push(DOT);
        push_decimal(&mut out, self.minor);
        out.push(DOT);
        push_decimal(&mut out, self.patch);
        out
    }
}

/// Appends the minimal decimal form of `n`.
pub fn push_decimal(out: &mut Vec<u8>, n: u64)
    ensures
        final(out)@ == old(out)@ + decimal(n as nat),
    decreases n,
{
    if n >= 10 {
        push_decimal(out, n / 10);
    }
    out.push(DIGIT_ZERO + (n % 10) as u8);
    proof {
        assert(final(out)@ =~= old(out)@ + decimal(n as nat));
    }
}

/// Appends ASCII bytes to a string, one character each.
pub fn append_ascii(out: &mut String, text: &Vec<u8>)
    ensures
        final(out)@ == old(out)@ + ascii_chars(text@),
{
    let ghost start = out@;
    let mut i: usize = 0;
    while i < text.len()
        invariant
            i <= text@.len(),
            out@ == start + ascii_chars(text@.take(i as int)),
        decreases text@.len() - i,
    {
        push_char(out, text[i] as char);
        proof {
            assert(text@.take(i + 1) =~= text@.take(i as int).push(text@[i as int]));
            assert(ascii_chars(text@.take(i + 1)) =~= ascii_chars(text@.take(i as int)).push(
                text@[i as int] as char,
            ));
        }
        i = i + 1;
    }
    proof {
        assert(text@.take(i as int) =~= text@);
    }
}

/// Relies on `String::push`, which appends one character.
#[verifier::external_body]
fn push_char(s: &mut String, c: char)
    ensures
        final(s)@ == old(s)@.push(c),
{
    s.push(c)
}

/// Reads `vMAJOR.MINOR.PATCH` from bytes; anything else gives `None`.
pub fn parse_tag(b: &[u8]) -> (r: Option<Version>)
    ensures
        r == parsed(b@),
{
    if b.len() == 0 || b[0] != LETTER_V {
        return None;
    }
    let ghost body = b@.skip(1);
    let mut i: usize = 1;
    let mut seg: usize = 0;
    let mut cur: u64 = 0;
    let mut cur_len: usize = 0;
    let mut major: u64 = 0;
    let mut minor: u64 = 0;
    proof {
        assert(b@.subrange(1, 1) =~= Seq::<u8>::empty());
    }
    while i < b.len()
        invariant
            1 <= i <= b@.len(),
            b@[0] == LETTER_V,
            body == b@.skip(1),
            seg <= 2,
            split_dots(b@.subrange(1, i as int)).len() == seg + 1,
            cur as nat == digits_value(split_dots(b@.subrange(1, i as int))[seg as int]),
            cur_len as nat == split_dots(b@.subrange(1, i as int))[seg as int].len(),
            cur_len <= i,
            all_digits(split_dots(b@.subrange(1, i as int))[seg as int]),
            seg >= 1 ==> is_counter(split_dots(b@.subrange(1, i as int))[0]) && major as nat
                == digits_value(split_dots(b@.subrange(1, i as int))[0]),
            seg >= 2 ==> is_counter(split_dots(b@.subrange(1, i as int))[1]) && minor as nat
                == digits_value(split_dots(b@.subrange(1, i as int))[1]),
        decreases b@.len() - i,
    {
        let c = b[i];
        let ghost pre = b@.subrange(1, i as int);
        let ghost next = b@.subrange(1, i + 1);
        proof {
            assert(next.drop_last() =~= pre);
            assert(next.last() == c);
            assert(b@ == b@.subrange(0, i + 1) + b@.subrange(i + 1, b@.len() as int));
            assert(body =~= b@.subrange(1, b@.len() as int));
            assert(b@.subrange(1, b@.len() as int) =~= next + b@.subrange(i + 1, b@.len() as int));
            lemma_split_extend(next, b@.subrange(i + 1, b@.len() as int));
        }
        if c == DOT {
            if cur_len == 0 || seg == 2 {
                proof {
                    assert(split_dots(next)[seg as int] == split_dots(pre)[seg as int]);
                }
                return None;
            }
            if seg == 0 {
                major = cur;
            } else {
                minor = cur;
            }
            seg = seg + 1;
            cur = 0;
            cur_len = 0;
        } else if c < DIGIT_ZERO || c > DIGIT_NINE {
            proof {
                let p = split_dots(next)[seg as int];
                assert(p.last() == c);
                let q = split_dots(body)[seg as int];
                assert(p.is_prefix_of(q));
                assert(q[p.len() - 1] == c);
                assert(!is_digit(q[p.len() - 1]));
                assert(!is_counter(q));
            }
            return None;
        } else {
            let d = (c - DIGIT_ZERO) as u64;
            if cur > 1844674407370955161 || (cur == 1844674407370955161 && d > 5) {
                proof {
                    let p = split_dots(next)[seg as int];
                    assert(p.drop_last() =~= split_dots(pre)[seg as int]);
                    assert(digits_value(p) > u64::MAX);
                    let q = split_dots(body)[seg as int];
                    lemma_digits_value_prefix(p, q);
                }
                return None;
            }
            cur = cur * 10 + d;
            cur_len = cur_len + 1;
            proof {
                let p = split_dots(next)[seg as int];
                assert(p.drop_last() =~= split_dots(pre)[seg as int]);
                assert(all_digits(p)) by {
                    assert forall|k: int| 0 <= k < p.len() implies is_digit(#[trigger] p[k]) by {
                        if k < p.len() - 1 {
                            assert(p[k] == p.drop_last()[k]);
                        }
                    }
                }
            }
        }
        i = i + 1;
    }
    proof {
        assert(b@.subrange(1, i as int) =~= body);
    }
    if seg != 2 || cur_len == 0 {
        return None;
    }
    Some(Version { major, minor, patch: cur })
}

} // verus!
