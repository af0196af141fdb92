use vstd::prelude::*;

use crate::Error;
use crate::text::chars_of;

verus! {

/// A three-component semantic version, ordered by major, then minor, then patch.
#[derive(Debug, Clone, Copy, PartialEq, Eq, Structural, Ord)]
pub struct VersionTag {
    pub major: u32,
    pub minor: u32,
    pub patch: u32,
}

/// `a` comes strictly before `b` in semantic-version order.
pub open spec fn version_lt(a: VersionTag, b: VersionTag) -> bool {
    a.major < b.major || (a.major == b.major && (a.minor < b.minor || (a.minor == b.minor
        && a.patch < b.patch)))
}

/// The three-way comparison of two versions.
pub open spec fn version_cmp(a: VersionTag, b: VersionTag) -> core::cmp::Ordering {
    if version_lt(a, b) {
        core::cmp::Ordering::Less
    } else if a == b {
        core::cmp::Ordering::Equal
    } else {
        core::cmp::Ordering::Greater
    }
}

/// The decimal digit character for `d < 10`.
pub open spec fn digit_char(d: nat) -> char {
    (d + 48) as char
}

pub open spec fn is_digit(c: char) -> bool {
    '0' <= c && c <= '9'
}

pub open spec fn digit_value(c: char) -> nat {
    (c as int - 48) as nat
}

/// The number written by a string of decimal digits (most significant first).
pub open spec fn digits_value(s: Seq<char>) -> nat
    decreases s.len(),
{
    if s.len() == 0 {
        0
    } else {
        digits_value(s.drop_last()) * 10 + digit_value(s.last())
    }
}

/// Shortest decimal notation of `n`.
pub open spec fn decimal(n: nat) -> Seq<char>
    decreases n,
{
    if n < 10 {
        seq![digit_char(n)]
    } else {
        decimal(n / 10).push(digit_char(n % 10))
    }
}

/// `"major.minor.patch"` in decimal.
pub open spec fn version_text(v: VersionTag) -> Seq<char> {
    decimal(v.major as nat) + seq!['.'] + decimal(v.minor as nat) + seq!['.'] + decimal(
        v.patch as nat,
    )
}

/// The pieces of `s` between dots, as splitting on `'.'` yields them: one more
/// piece than there are dots, empty pieces included.
pub open spec fn split_dots(s: Seq<char>) -> Seq<Seq<char>>
    decreases s.len(),
{
    if s.len() == 0 {
        seq![Seq::<char>::empty()]
    } else {
        let prev = split_dots(s.drop_last());
        if s.last() == '.' {
            prev.push(Seq::<char>::empty())
        } else {
            prev.update(prev.len() - 1, prev.last().push(s.last()))
        }
    }
}

/// One or more decimal digits.
pub open spec fn is_digit_run(s: Seq<char>) -> bool {
    s.len() > 0 && forall|i: int| 0 <= i < s.len() ==> is_digit(#[trigger] s[i])
}

/// The digits of a component: the text less one leading `+`, if there is one.
pub open spec fn unsigned_digits(s: Seq<char>) -> Seq<char> {
    if s.len() > 0 && s[0] == '+' {
        s.subrange(1, s.len() as int)
    } else {
        s
    }
}

/// A version component: an optional `+`, then one or more decimal digits
/// whose value fits in `u32`.
pub open spec fn is_component(s: Seq<char>) -> bool {
    is_digit_run(unsigned_digits(s)) && digits_value(unsigned_digits(s)) <= u32::MAX
}

/// The number that a component denotes.
pub open spec fn component_value(s: Seq<char>) -> nat {
    digits_value(unsigned_digits(s))
}

/// The version that `s` denotes: exactly three dot-separated components.
pub open spec fn parse_version(s: Seq<char>) -> Option<VersionTag> {
    let p = split_dots(s);
    if p.len() == 3 && is_component(p[0]) && is_component(p[1]) && is_component(p[2]) {
        Some(
            VersionTag {
                major: component_value(p[0]) as u32,
                minor: component_value(p[1]) as u32,
                patch: component_value(p[2]) as u32,
            },
        )
    } else {
        None
    }
}

impl PartialOrd for VersionTag {
    fn partial_cmp(&self, other: &Self) -> (r: Option<core::cmp::Ordering>)
        ensures
            r == Some(version_cmp(*self, *other)),
    {
        if self.major != other.major {
            if self.major < other.major {
                return Some(core::cmp::Ordering::Less);
            } else {
                return Some(core::cmp::Ordering::Greater);
            }
        }
        if self.minor != other.minor {
            if self.minor < other.minor {
                return Some(core::cmp::Ordering::Less);
            } else {
                return Some(core::cmp::Ordering::Greater);
            }
        }
        if self.patch != other.patch {
            if self.patch < other.patch {
                return Some(core::cmp::Ordering::Less);
            } else {
                return Some(core::cmp::Ordering::Greater);
            }
        }
        Some(core::cmp::Ordering::Equal)
    }
}

impl vstd::std_specs::cmp::PartialOrdSpecImpl for VersionTag {
    open spec fn obeys_partial_cmp_spec() -> bool {
        true
    }

    open spec fn partial_cmp_spec(&self, other: &Self) -> Option<core::cmp::Ordering> {
        Some(version_cmp(*self, *other))
    }
}

/// What reading `s` as a version gives: the version, or the local-version error.
pub open spec fn parse_result(s: Seq<char>) -> Result<VersionTag, Error> {
    match parse_version(s) {
        Some(v) => Ok(v),
        None => Err(Error::InvalidLocalVersionError),
    }
}

/// Version order is a strict total order: irreflexive, asymmetric,
/// transitive, and any two versions are equal or ordered one way.
pub proof fn lemma_version_order_total(a: VersionTag, b: VersionTag, c: VersionTag)
    ensures
        !version_lt(a, a),
        version_lt(a, b) || a == b || version_lt(b, a),
        version_lt(a, b) ==> !version_lt(b, a),
        version_lt(a, b) && version_lt(b, c) ==> version_lt(a, c),
        version_cmp(a, b) == core::cmp::Ordering::Equal <==> a == b,
        version_cmp(a, b) == core::cmp::Ordering::Less <==> version_cmp(b, a)
            == core::cmp::Ordering::Greater,
{
}

/// A component in shortest form: digits only, with no leading zero unless it
/// is `"0"` itself.
pub open spec fn is_canonical_component(s: Seq<char>) -> bool {
    is_digit_run(s) && digits_value(s) <= u32::MAX && (s.len() == 1 || s[0] != '0')
}

/// Text that is exactly three canonical components separated by dots.
pub open spec fn is_canonical_version_text(s: Seq<char>) -> bool {
    let p = split_dots(s);
    p.len() == 3 && is_canonical_component(p[0]) && is_canonical_component(p[1])
        && is_canonical_component(p[2])
}

/// The pieces joined back with dots between them.
pub open spec fn join_dots(p: Seq<Seq<char>>) -> Seq<char>
    decreases p.len(),
{
    if p.len() <= 1 {
        if p.len() == 1 {
            p[0]
        } else {
            Seq::<char>::empty()
        }
    } else {
        join_dots(p.drop_last()) + seq!['.'] + p.last()
    }
}

proof fn lemma_join_split(s: Seq<char>)
    ensures
        join_dots(split_dots(s)) == s,
    decreases s.len(),
{
    if s.len() > 0 {
        let t = s.drop_last();
        lemma_join_split(t);
        lemma_split_dots_nonempty(t);
        let prev = split_dots(t);
        if s.last() == '.' {
            assert(prev.push(Seq::<char>::empty()).drop_last() =~= prev);
            assert(s =~= t + seq!['.'] + Seq::<char>::empty());
        } else {
            let q = prev.update(prev.len() - 1, prev.last().push(s.last()));
            if prev.len() > 1 {
                assert(q.drop_last() =~= prev.drop_last());
                assert(t == join_dots(prev.drop_last()) + seq!['.'] + prev.last());
                assert(s =~= t.push(s.last()));
                assert(s =~= join_dots(prev.drop_last()) + seq!['.'] + prev.last().push(s.last()));
            } else {
                assert(s =~= prev.last().push(s.last()));
            }
        }
    }
}

proof fn lemma_leading_digit_value(s: Seq<char>)
    requires
        s.len() >= 1,
        forall|i: int| 0 <= i < s.len() ==> is_digit(#[trigger] s[i]),
        s[0] != '0',
    ensures
        digits_value(s) >= 1,
    decreases s.len(),
{
    if s.len() > 1 {
        let t = s.drop_last();
        assert(t[0] == s[0]);
        assert forall|i: int| 0 <= i < t.len() implies is_digit(#[trigger] t[i]) by {
            assert(t[i] == s[i]);
        }
        lemma_leading_digit_value(t);
    }
}

proof fn lemma_decimal_of_canonical(s: Seq<char>)
    requires
        s.len() >= 1,
        forall|i: int| 0 <= i < s.len() ==> is_digit(#[trigger] s[i]),
        s.len() == 1 || s[0] != '0',
    ensures
        decimal(digits_value(s)) == s,
    decreases s.len(),
{
    let t = s.drop_last();
    let d = digit_value(s.last());
    assert(is_digit(s[s.len() - 1]));
    assert(d < 10);
    assert(digit_char(d) == s.last());
    if s.len() == 1 {
        assert(digits_value(t) == 0);
        assert(s =~= seq![s.last()]);
    } else {
        assert(t[0] == s[0]);
        assert forall|i: int| 0 <= i < t.len() implies is_digit(#[trigger] t[i]) by {
            assert(t[i] == s[i]);
        }
        lemma_decimal_of_canonical(t);
        lemma_leading_digit_value(t);
        let v = digits_value(t);
        assert((v * 10 + d) / 10 == v && (v * 10 + d) % 10 == d) by (nonlinear_arith)
            requires
                d < 10,
        ;
        assert(s =~= t.push(s.last()));
    }
}

/// Printing a parsed version gives back the text, for text in canonical form.
pub proof fn lemma_parse_round_trip(s: Seq<char>)
    requires
        is_canonical_version_text(s),
    ensures
        parse_version(s) is Some,
        version_text(parse_version(s)->Some_0) == s,
{
    let p = split_dots(s);
    lemma_decimal_of_canonical(p[0]);
    lemma_decimal_of_canonical(p[1]);
    lemma_decimal_of_canonical(p[2]);
    lemma_join_split(s);
    assert(p.drop_last().drop_last() =~= seq![p[0]]);
    assert(join_dots(seq![p[0]]) == p[0]);
    assert(p.drop_last().last() == p[1]);
    assert(join_dots(p.drop_last()) == p[0] + seq!['.'] + p[1]);
    assert(join_dots(p) == p[0] + seq!['.'] + p[1] + seq!['.'] + p[2]);
}

/// A release as the publisher describes it: its version, the archive's hash
/// (descriptive only, never checked), and where to download the archive.
pub struct PackageTag {
    pub version: VersionTag,
    pub hash: String,
    pub download_url: String,
}

impl PackageTag {
    pub fn new(version: VersionTag, hash: String, download_url: String) -> (r: Self)
        ensures
            r.version == version,
            r.hash@ == hash@,
            r.download_url@ == download_url@,
    {
        PackageTag { version, hash, download_url }
    }
}

proof fn lemma_decimal_digits(n: nat)
    ensures
        decimal(n).len() >= 1,
        forall|i: int| 0 <= i < decimal(n).len() ==> is_digit(#[trigger] decimal(n)[i]),
        digits_value(decimal(n)) == n,
    decreases n,
{
    if n >= 10 {
        lemma_decimal_digits(n / 10);
        let t = decimal(n / 10);
        lemma_digits_value_push(t, digit_char(n % 10));
        assert(digit_value(digit_char(n % 10)) == n % 10);
        assert((n / 10) * 10 + n % 10 == n) by (nonlinear_arith);
        assert(decimal(n) == t.push(digit_char(n % 10)));
        assert(digits_value(decimal(n)) == digits_value(t) * 10 + n % 10);
        assert forall|i: int| 0 <= i < decimal(n).len() implies is_digit(#[trigger] decimal(n)[i]) by {
            if i < t.len() {
                assert(decimal(n)[i] == t[i]);
            }
        }
    } else {
        assert(decimal(n).drop_last() =~= Seq::<char>::empty());
        assert(digit_value(digit_char(n)) == n);
        assert(digits_value(Seq::<char>::empty()) == 0);
        assert(digits_value(decimal(n)) == digits_value(decimal(n).drop_last()) * 10 + digit_value(
            decimal(n).last(),
        ));
    }
}

proof fn lemma_split_dots_extend(s: Seq<char>, t: Seq<char>)
    requires
        forall|i: int| 0 <= i < t.len() ==> #[trigger] t[i] != '.',
    ensures
        split_dots(s + t) == split_dots(s).update(
            split_dots(s).len() - 1,
            split_dots(s).last() + t,
        ),
    decreases t.len(),
{
    lemma_split_dots_nonempty(s);
    if t.len() == 0 {
        assert(s + t =~= s);
        assert(split_dots(s).last() + t =~= split_dots(s).last());
        assert(split_dots(s).update(split_dots(s).len() - 1, split_dots(s).last())
            =~= split_dots(s));
    } else {
        let u = t.drop_last();
        assert forall|i: int| 0 <= i < u.len() implies #[trigger] u[i] != '.' by {
            assert(u[i] == t[i]);
        }
        lemma_split_dots_extend(s, u);
        assert((s + t).drop_last() =~= s + u);
        assert((s + t).last() == t.last());
        assert(t.last() == t[t.len() - 1]);
        let p = split_dots(s);
        let q = split_dots(s + u);
        assert(q.last() == p.last() + u);
        assert((p.last() + u).push(t.last()) =~= p.last() + t);
        assert(q.update(q.len() - 1, q.last().push(t.last())) =~= p.update(
            p.len() - 1,
            p.last() + t,
        ));
    }
}

proof fn lemma_split_dots_dot(s: Seq<char>)
    ensures
        split_dots(s.push('.')) == split_dots(s).push(Seq::<char>::empty()),
{
    assert(s.push('.').drop_last() =~= s);
}

proof fn lemma_decimal_no_dots(n: nat)
    ensures
        forall|i: int| 0 <= i < decimal(n).len() ==> #[trigger] decimal(n)[i] != '.',
{
    lemma_decimal_digits(n);
    assert forall|i: int| 0 <= i < decimal(n).len() implies #[trigger] decimal(n)[i] != '.' by {
        assert(is_digit(decimal(n)[i]));
    }
}

/// Parsing the printed text of a version gives the version back.
pub proof fn lemma_print_round_trip(v: VersionTag)
    ensures
        parse_version(version_text(v)) == Some(v),
{
    let a = decimal(v.major as nat);
    let b = decimal(v.minor as nat);
    let c = decimal(v.patch as nat);
    lemma_decimal_digits(v.major as nat);
    lemma_decimal_digits(v.minor as nat);
    lemma_decimal_digits(v.patch as nat);
    lemma_decimal_no_dots(v.major as nat);
    lemma_decimal_no_dots(v.minor as nat);
    lemma_decimal_no_dots(v.patch as nat);
    let e = Seq::<char>::empty();
    lemma_split_dots_extend(e, a);
    assert(e + a =~= a);
    assert(split_dots(a) =~= seq![a]);
    lemma_split_dots_dot(a);
    let s1 = a.push('.');
    lemma_split_dots_extend(s1, b);
    assert(split_dots(s1 + b) =~= seq![a, b]);
    lemma_split_dots_dot(s1 + b);
    let s2 = (s1 + b).push('.');
    lemma_split_dots_extend(s2, c);
    assert(split_dots(s2 + c) =~= seq![a, b, c]);
    assert(version_text(v) =~= s2 + c);
}

/// The one-character text of the digit `d`.
fn digit_str(d: u32) -> (r: &'static str)
    requires
        d < 10,
    ensures
        r@ == seq![digit_char(d as nat)],
{
    match d {
        0 => {
            proof { reveal_strlit("0"); }
            "0"
        },
        1 => {
            proof { reveal_strlit("1"); }
            "1"
        },
        2 => {
            proof { reveal_strlit("2"); }
            "2"
        },
        3 => {
            proof { reveal_strlit("3"); }
            "3"
        },
        4 => {
            proof { reveal_strlit("4"); }
            "4"
        },
        5 => {
            proof { reveal_strlit("5"); }
            "5"
        },
        6 => {
            proof { reveal_strlit("6"); }
            "6"
        },
        7 => {
            proof { reveal_strlit("7"); }
            "7"
        },
        8 => {
            proof { reveal_strlit("8"); }
            "8"
        },
        _ => {
            proof { reveal_strlit("9"); }
            "9"
        },
    }
}

/// Appends the decimal notation of `n` to `out`.
fn push_decimal(out: &mut String, n: u32)
    ensures
        final(out)@ == old(out)@ + decimal(n as nat),
    decreases n,
{
    if n >= 10 {
        push_decimal(out, n / 10);
    }
    out.append(digit_str(n % 10));
    assert(out@ =~= old(out)@ + decimal(n as nat));
}

proof fn lemma_split_dots_step(s: Seq<char>, i: int)
    requires
        0 <= i < s.len(),
    ensures
        split_dots(s.subrange(0, i + 1)) == ({
            let prev = split_dots(s.subrange(0, i));
            if s[i] == '.' {
                prev.push(Seq::<char>::empty())
            } else {
                prev.update(prev.len() - 1, prev.last().push(s[i]))
            }
        }),
{
    assert(s.subrange(0, i + 1).drop_last() =~= s.subrange(0, i));
}

proof fn lemma_split_dots_nonempty(s: Seq<char>)
    ensures
        split_dots(s).len() >= 1,
    decreases s.len(),
{
    if s.len() > 0 {
        lemma_split_dots_nonempty(s.drop_last());
    }
}

proof fn lemma_unsigned_digits_push(s: Seq<char>, c: char)
    requires
        !(s.len() == 0 && c == '+'),
    ensures
        unsigned_digits(s.push(c)) == unsigned_digits(s).push(c),
{
    if s.len() > 0 && s[0] == '+' {
        assert(s.push(c)[0] == '+');
        assert(s.push(c).subrange(1, s.len() as int + 1) =~= s.subrange(1, s.len() as int).push(c));
    } else if s.len() > 0 {
        assert(s.push(c)[0] == s[0]);
    }
}

proof fn lemma_digits_value_push(s: Seq<char>, c: char)
    ensures
        digits_value(s.push(c)) == digits_value(s) * 10 + digit_value(c),
{
    assert(s.push(c).drop_last() =~= s);
}

impl VersionTag {
    pub fn new(major: u32, minor: u32, patch: u32) -> (r: Self)
        ensures
            r.major == major,
            r.minor == minor,
            r.patch == patch,
    {
        VersionTag { major, minor, patch }
    }

    /// Reads `"major.minor.patch"`: exactly three dot-separated runs of decimal
    /// digits, each at most `u32::MAX`.
    pub fn parse(s: &str) -> (r: Result<VersionTag, Error>)
        ensures
            r == parse_result(s@),
    {
        VersionTag::parse_chars(&chars_of(s))
    }

    /// [`VersionTag::parse`] on text given character by character.
    pub fn parse_chars(s: &Vec<char>) -> (r: Result<VersionTag, Error>)
        ensures
            r == parse_result(s@),
    {
        let n = s.len();
        let mut oks: Vec<bool> = Vec::new();
        let mut vals: Vec<u32> = Vec::new();
        let mut cur_len: usize = 0;
        let mut cur_plus = false;
        let mut cur_digits = true;
        let mut cur_big = false;
        let mut cur_val: u64 = 0;
        let mut i: usize = 0;
        proof {
            assert(s@.subrange(0, 0) =~= Seq::<char>::empty());
        }
        while i < n
            invariant
                n == s@.len(),
                0 <= i <= n,
                ({
                    let p = split_dots(s@.subrange(0, i as int));
                    &&& p.len() == oks@.len() + 1
                    &&& vals@.len() == oks@.len()
                    &&& forall|k: int| 0 <= k < oks@.len() ==> oks@[k] == is_component(#[trigger] p[k])
                    &&& forall|k: int| 0 <= k < oks@.len() && oks@[k] ==> vals@[k] == component_value(#[trigger] p[k])
                    &&& cur_plus == (p.last().len() > 0 && p.last()[0] == '+')
                    &&& p.last().len() == cur_len + if cur_plus { 1int } else { 0int }
                    &&& unsigned_digits(p.last()).len() == cur_len
                    &&& cur_digits == (forall|j: int| 0 <= j < unsigned_digits(p.last()).len() ==> is_digit(#[trigger] unsigned_digits(p.last())[j]))
                    &&& cur_digits ==> (cur_big == (digits_value(unsigned_digits(p.last())) > u32::MAX))
                    &&& cur_digits && !cur_big ==> cur_val == digits_value(unsigned_digits(p.last()))
                }),
                cur_len <= i,
                oks@.len() <= i,
            decreases n - i,
        {
            let c = s[i];
            let ghost p = split_dots(s@.subrange(0, i as int));
            proof {
                lemma_split_dots_step(s@, i as int);
            }
            if c == '.' {
                let ok = cur_len > 0 && cur_digits && !cur_big;
                oks.push(ok);
                vals.push(if ok { cur_val as u32 } else { 0 });
                cur_len = 0;
                cur_plus = false;
                cur_digits = true;
                cur_big = false;
                cur_val = 0;
                proof {
                    let q = split_dots(s@.subrange(0, i + 1));
                    assert(q.last() =~= Seq::<char>::empty());
                    assert forall|k: int| 0 <= k < oks@.len() implies oks@[k] == is_component(#[trigger] q[k]) by {
                        assert(q[k] == p[k]);
                    }
                    assert forall|k: int| 0 <= k < oks@.len() && oks@[k] implies vals@[k] == component_value(#[trigger] q[k]) by {
                        assert(q[k] == p[k]);
                    }
                }
            } else if cur_len == 0 && !cur_plus && c == '+' {
                cur_plus = true;
                proof {
                    let q = split_dots(s@.subrange(0, i + 1));
                    assert(p.last().len() == 0);
                    assert(q.last() =~= seq!['+']);
                    assert(unsigned_digits(q.last()) =~= Seq::<char>::empty());
                    assert forall|k: int| 0 <= k < oks@.len() implies #[trigger] q[k] == p[k] by {}
                }
            } else {
                let ghost last = p.last();
                let ghost dl = unsigned_digits(last);
                proof {
                    lemma_unsigned_digits_push(last, c);
                    lemma_digits_value_push(dl, c);
                }
                let d = '0' <= c && c <= '9';
                if !d {
                    cur_digits = false;
                } else if cur_digits && !cur_big {
                    let nv = cur_val * 10 + (c as u32 - 48) as u64;
                    if nv > 0xffff_ffff {
                        cur_big = true;
                    } else {
                        cur_val = nv;
                    }
                }
                cur_len = cur_len + 1;
                proof {
                    let q = split_dots(s@.subrange(0, i + 1));
                    assert(q.last() == last.push(c));
                    let dq = unsigned_digits(q.last());
                    assert(dq == dl.push(c));
                    assert(q.last()[0] == '+' <==> cur_plus) by {
                        if last.len() > 0 {
                            assert(q.last()[0] == last[0]);
                        }
                    }
                    assert forall|k: int| 0 <= k < oks@.len() implies #[trigger] q[k] == p[k] by {}
                    if cur_digits {
                        assert forall|j: int| 0 <= j < dq.len() implies is_digit(#[trigger] dq[j]) by {
                            if j < dl.len() {
                                assert(dq[j] == dl[j]);
                            }
                        }
                    } else {
                        if !d {
                            assert(!is_digit(dq[dl.len() as int]));
                        } else {
                            let j = choose|j: int| 0 <= j < dl.len() && !is_digit(#[trigger] dl[j]);
                            assert(dq[j] == dl[j]);
                        }
                    }
                }
            }
            i = i + 1;
        }
        proof {
            assert(s@.subrange(0, n as int) =~= s@);
        }
        let last_ok = cur_len > 0 && cur_digits && !cur_big;
        if oks.len() == 2 && oks[0] && oks[1] && last_ok {
            Ok(VersionTag { major: vals[0], minor: vals[1], patch: cur_val as u32 })
        } else {
            Err(Error::InvalidLocalVersionError)
        }
    }

    /// `"major.minor.patch"`, each component in shortest decimal form.
    pub fn as_string(&self) -> (r: String)
        ensures
            r@ == version_text(*self),
    {
        let mut out = String::new();
        push_decimal(&mut out, self.major);
        out.append(".");
        push_decimal(&mut out, self.minor);
        out.append(".");
        push_decimal(&mut out, self.patch);
        proof {
            reveal_strlit(".");
            assert(out@ =~= version_text(*self));
        }
        out
    }
}

impl<'a> TryFrom<&'a str> for VersionTag {
    type Error = Error;

    fn try_from(value: &'a str) -> (r: Result<Self, Self::Error>)
        ensures
            r == parse_result(value@),
    {
        VersionTag::parse(value)
    }
}

impl<'a> vstd::std_specs::convert::TryFromSpecImpl<&'a str> for VersionTag {
    open spec fn obeys_try_from_spec() -> bool {
        true
    }

    open spec fn try_from_spec(v: &'a str) -> Result<Self, Error> {
        parse_result(v@)
    }
}

} // verus!
