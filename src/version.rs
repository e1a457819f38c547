//! Dotted-integer versions: parsing, rendering, ordering and bumping.
use vstd::prelude::*;
use std::cmp::Ordering;
use crate::text::{is_digit, digit_value, digit_char, decimal, push_char, push_decimal};

verus! {

/// Numeric value of a string of decimal digits.
pub open spec fn digits_value(d: Seq<char>) -> nat
    decreases d.len(),
{
    if d.len() == 0 {
        0
    } else {
        (digits_value(d.drop_last()) * 10 + digit_value(d.last())) as nat
    }
}

/// Every character of `d` is a decimal digit.
pub open spec fn all_digits(d: Seq<char>) -> bool {
    forall|i: int| 0 <= i < d.len() ==> is_digit(#[trigger] d[i])
}

/// One component of a version: a non-empty run of digits whose value fits in `u32`.
pub open spec fn parse_component(d: Seq<char>) -> Option<u32> {
    if d.len() > 0 && all_digits(d) && digits_value(d) <= u32::MAX {
        Some(digits_value(d) as u32)
    } else {
        None
    }
}

/// Index of the first `c` in `s`, or `s.len()` when there is none.
pub open spec fn first_index_of(s: Seq<char>, c: char) -> nat
    decreases s.len(),
{
    if s.len() == 0 {
        0
    } else if s[0] == c {
        0
    } else {
        1 + first_index_of(s.drop_first(), c)
    }
}

/// The components of a version string: `s` split on `.`, each piece a component.
pub open spec fn parse_version(s: Seq<char>) -> Option<Seq<u32>>
    decreases s.len(),
{
    let k = first_index_of(s, '.');
    if k >= s.len() {
        match parse_component(s) {
            Some(x) => Some(seq![x]),
            None => None,
        }
    } else {
        match (parse_component(s.take(k as int)), parse_version(s.skip((k + 1) as int))) {
            (Some(x), Some(r)) => Some(seq![x] + r),
            _ => None,
        }
    }
}

/// Dot-joined decimal rendering; an empty sequence renders as `0`.
pub open spec fn format_version(v: Seq<u32>) -> Seq<char>
    decreases v.len(),
{
    if v.len() == 0 {
        seq!['0']
    } else if v.len() == 1 {
        decimal(v[0] as nat)
    } else {
        decimal(v[0] as nat) + seq!['.'] + format_version(v.drop_first())
    }
}

/// Component-wise comparison from position `i` on; a missing position ends
/// the comparison as equal.
pub open spec fn cmp_from(a: Seq<u32>, b: Seq<u32>, i: int) -> Ordering
    decreases a.len() - i,
{
    if i < 0 || i >= a.len() || i >= b.len() {
        Ordering::Equal
    } else if a[i] > b[i] {
        Ordering::Greater
    } else if a[i] < b[i] {
        Ordering::Less
    } else {
        cmp_from(a, b, i + 1)
    }
}

/// The ordering of two versions.
pub open spec fn version_cmp(a: Seq<u32>, b: Seq<u32>) -> Ordering {
    cmp_from(a, b, 0)
}

/// The version with its last component incremented.
pub open spec fn bumped(v: Seq<u32>) -> Seq<u32> {
    v.update(v.len() - 1, (v.last() + 1) as u32)
}

/// Errors of version parsing.
#[derive(Debug, Clone, Copy, PartialEq, Eq, Structural)]
pub enum VersionError {
    /// The string, or one of its dot-separated components, is not a number.
    Invalid,
}

/// A version: a non-empty sequence of non-negative integers.
#[derive(Debug, Clone)]
pub struct Version {
    n: Vec<u32>,
}

impl View for Version {
    type V = Seq<u32>;

    closed spec fn view(&self) -> Seq<u32> {
        self.n@
    }
}

impl Version {
    /// A version with the given components.
    pub fn new(n: Vec<u32>) -> (r: Version)
        ensures
            r@ == n@,
    {
        Version { n }
    }

    /// The components of this version.
    pub fn components(&self) -> (r: &Vec<u32>)
        ensures
            r@ == self@,
    {
        &self.n
    }

    /// The version `0`.
    pub fn zero() -> (r: Version)
        ensures
            r@ == seq![0u32],
    {
        let r = Version::new(vec![0]);
        assert(r@ =~= seq![0u32]);
        r
    }

    /// Parses a dot-separated string of decimal numbers.
    pub fn from_str(s: &str) -> (r: Result<Version, VersionError>)
        ensures
            r matches Ok(v) <==> parse_version(s@) is Some,
            r matches Ok(v) ==> parse_version(s@) == Some(v@),
    {
        match parse_components(s) {
            Some(n) => Ok(Version { n }),
            None => Err(VersionError::Invalid),
        }
    }

    /// This version with its last component incremented.
    pub fn bump(&self) -> (r: Version)
        requires
            self@.len() >= 1,
            self@.last() < u32::MAX,
        ensures
            r@ == bumped(self@),
    {
        let len = self.n.len();
        let mut n = self.n.clone();
        assert(n@ =~= self.n@);
        let last = n[len - 1];
        n.set(len - 1, last + 1);
        Version { n }
    }

    /// Compares two versions component by component from the most
    /// significant; the comparison stops as equal where either runs out.
    pub fn cmp(&self, other: &Version) -> (r: Ordering)
        ensures
            r == version_cmp(self@, other@),
    {
        let mut i: usize = 0;
        while i < self.n.len() && i < other.n.len()
            invariant
                i <= self.n.len(),
                i <= other.n.len(),
                version_cmp(self@, other@) == cmp_from(self@, other@, i as int),
            decreases self.n.len() - i,
        {
            let mine = self.n[i];
            let theirs = other.n[i];
            if mine > theirs {
                return Ordering::Greater;
            } else if mine < theirs {
                return Ordering::Less;
            }
            i += 1;
        }
        Ordering::Equal
    }

    /// Renders the version as dot-joined decimals.
    pub fn to_string(&self) -> (r: String)
        ensures
            r@ == format_version(self@),
    {
        let mut s = String::new();
        if self.n.len() == 0 {
            push_char(&mut s, '0');
            assert(s@ =~= format_version(self@));
            return s;
        }
        let len = self.n.len();
        let mut i: usize = len - 1;
        // Build the rendering from the last component backwards.
        let mut tail = String::new();
        push_decimal(&mut tail, self.n[i] as u64);
        proof {
            lemma_format_suffix_one(self@);
        }
        while i > 0
            invariant
                0 <= i < len,
                len == self@.len(),
                tail@ == format_version(self@.skip(i as int)),
            decreases i,
        {
            let mut head = String::new();
            push_decimal(&mut head, self.n[i - 1] as u64);
            push_char(&mut head, '.');
            head.append(tail.as_str());
            proof {
                lemma_format_suffix_step(self@, i as int);
            }
            tail = head;
            i -= 1;
        }
        assert(self@.skip(0) =~= self@);
        tail
    }
}

proof fn lemma_format_suffix_one(v: Seq<u32>)
    requires
        v.len() >= 1,
    ensures
        format_version(v.skip(v.len() - 1)) == decimal(v.last() as nat),
{
    let t = v.skip(v.len() - 1);
    assert(t.len() == 1);
    assert(t[0] == v.last());
}

proof fn lemma_format_suffix_step(v: Seq<u32>, i: int)
    requires
        1 <= i < v.len(),
    ensures
        format_version(v.skip(i - 1)) == decimal(v[i - 1] as nat) + seq!['.']
            + format_version(v.skip(i)),
{
    let t = v.skip(i - 1);
    assert(t.len() >= 2);
    assert(t[0] == v[i - 1]);
    assert(t.drop_first() =~= v.skip(i));
}

/// Parses the components of a dotted version string.
fn parse_components(s: &str) -> (r: Option<Vec<u32>>)
    ensures
        r matches Some(n) <==> parse_version(s@) is Some,
        r matches Some(n) ==> parse_version(s@) == Some(n@),
{
    let len = s.unicode_len();
    let mut acc: Vec<u32> = Vec::new();
    let mut pos: usize = 0;
    proof {
        assert(s@.skip(0) =~= s@);
        match parse_version(s@) {
            Some(r0) => {
                assert(acc@ + r0 =~= r0);
            },
            None => {},
        }
    }
    loop
        invariant
            pos <= len,
            len == s@.len(),
            parse_version(s@) == match parse_version(s@.skip(pos as int)) {
                Some(rest) => Some(acc@ + rest),
                None => None::<Seq<u32>>,
            },
        decreases len - pos,
    {
        let ghost rest = s@.skip(pos as int);
        let mut k: usize = pos;
        while k < len && s.get_char(k) != '.'
            invariant
                pos <= k <= len,
                len == s@.len(),
                forall|j: int| pos <= j < k ==> s@[j] != '.',
            decreases len - k,
        {
            k += 1;
        }
        proof {
            lemma_first_index_of(rest, '.', (k - pos) as int);
            assert(rest.take((k - pos) as int) =~= s@.subrange(pos as int, k as int));
        }
        let piece = s.substring_char(pos, k);
        let c = parse_u32(piece);
        match c {
            None => {
                return None;
            },
            Some(x) => {
                if k == len {
                    assert(rest =~= s@.subrange(pos as int, k as int));
                    let ghost prev = acc@;
                    acc.push(x);
                    assert(parse_version(rest) == Some(seq![x]));
                    assert(acc@ =~= prev + seq![x]);
                    return Some(acc);
                }
                proof {
                    assert(rest.skip((k - pos) as int + 1) =~= s@.skip(k as int + 1));
                }
                let ghost prev = acc@;
                acc.push(x);
                assert(acc@ == prev + seq![x]);
                proof {
                    match parse_version(s@.skip(k as int + 1)) {
                        Some(r2) => {
                            assert(prev + (seq![x] + r2) =~= acc@ + r2);
                        },
                        None => {},
                    }
                }
                pos = k + 1;
            },
        }
    }
}

/// `k` is the first index of `c` in `s` when no earlier character is `c`
/// and position `k` is `c` or the end.
proof fn lemma_first_index_of(s: Seq<char>, c: char, k: int)
    requires
        0 <= k <= s.len(),
        forall|j: int| 0 <= j < k ==> s[j] != c,
        k == s.len() || s[k] == c,
    ensures
        first_index_of(s, c) == k,
    decreases k,
{
    if k > 0 {
        lemma_first_index_of(s.drop_first(), c, k - 1);
    }
}

/// A parsed version has at least one component.
pub proof fn lemma_parse_nonempty(s: Seq<char>)
    ensures
        parse_version(s) matches Some(v) ==> v.len() >= 1,
    decreases s.len(),
{
    let k = first_index_of(s, '.');
    if k < s.len() {
        lemma_parse_nonempty(s.skip(k as int + 1));
    }
}

/// Where no `c` stands in `s[pos..k]` and `k` is the end or a `c`, the first
/// `c` of `s[pos..]` is at `k - pos`.
pub proof fn lemma_first_index_of_shift(s: Seq<char>, c: char, pos: int, k: int)
    requires
        0 <= pos <= k <= s.len(),
        forall|j: int| pos <= j < k ==> s[j] != c,
        k == s.len() || s[k] == c,
    ensures
        first_index_of(s.skip(pos), c) == k - pos,
{
    lemma_first_index_of(s.skip(pos), c, k - pos);
}

/// Parses a non-empty run of decimal digits whose value fits in `u32`.
fn parse_u32(d: &str) -> (r: Option<u32>)
    ensures
        r == parse_component(d@),
{
    let len = d.unicode_len();
    if len == 0 {
        return None;
    }
    let mut value: u64 = 0;
    let mut i: usize = 0;
    while i < len
        invariant
            i <= len,
            len == d@.len(),
            all_digits(d@.take(i as int)),
            value == digits_value(d@.take(i as int)),
            value <= u32::MAX,
        decreases len - i,
    {
        let c = d.get_char(i);
        if !('0' <= c && c <= '9') {
            proof {
                assert(!all_digits(d@));
            }
            return None;
        }
        let dv: u64 = (c as u64) - ('0' as u64);
        let next: u64 = value * 10 + dv;
        proof {
            let p = d@.take(i as int + 1);
            assert(p.drop_last() =~= d@.take(i as int));
            assert(p.last() == c);
        }
        if next > u32::MAX as u64 {
            proof {
                lemma_digits_value_prefix(d@, i as int + 1);
            }
            return None;
        }
        value = next;
        i += 1;
    }
    assert(d@.take(len as int) =~= d@);
    Some(value as u32)
}

/// On a string of digits the value of a prefix never exceeds the whole's.
proof fn lemma_digits_value_prefix(d: Seq<char>, i: int)
    requires
        0 <= i <= d.len(),
    ensures
        all_digits(d) ==> digits_value(d.take(i)) <= digits_value(d),
    decreases d.len() - i,
{
    if i < d.len() && all_digits(d) {
        lemma_digits_value_prefix(d, i + 1);
        let p = d.take(i + 1);
        assert(p.drop_last() =~= d.take(i));
        assert(is_digit(d[i]));
    }
    if i == d.len() {
        assert(d.take(i) =~= d);
    }
}

impl PartialEq for Version {
    fn eq(&self, other: &Version) -> (r: bool) {
        if self.n.len() != other.n.len() {
            return false;
        }
        let mut i: usize = 0;
        while i < self.n.len()
            invariant
                i <= self.n.len(),
                self.n.len() == other.n.len(),
                forall|j: int| 0 <= j < i ==> self.n@[j] == other.n@[j],
            decreases self.n.len() - i,
        {
            if self.n[i] != other.n[i] {
                return false;
            }
            i += 1;
        }
        assert(self.n@ =~= other.n@);
        true
    }
}

impl vstd::std_specs::cmp::PartialEqSpecImpl for Version {
    open spec fn obeys_eq_spec() -> bool {
        true
    }

    open spec fn eq_spec(&self, other: &Version) -> bool {
        self@ == other@
    }
}

impl PartialOrd for Version {
    fn partial_cmp(&self, other: &Version) -> (r: Option<Ordering>) {
        Some(self.cmp(other))
    }
}

impl vstd::std_specs::cmp::PartialOrdSpecImpl for Version {
    open spec fn obeys_partial_cmp_spec() -> bool {
        true
    }

    open spec fn partial_cmp_spec(&self, other: &Version) -> Option<Ordering> {
        Some(version_cmp(self@, other@))
    }
}

proof fn lemma_decimal(n: nat)
    ensures
        decimal(n).len() >= 1,
        all_digits(decimal(n)),
        digits_value(decimal(n)) == n,
        first_index_of(decimal(n), '.') == decimal(n).len(),
    decreases n,
{
    let d = decimal(n);
    if n < 10 {
        assert(d.drop_last() =~= Seq::<char>::empty());
        assert(d.last() == digit_char(n));
        assert(digit_value(digit_char(n)) == n);
        assert(digits_value(d) == digits_value(d.drop_last()) * 10 + digit_value(d.last()));
        assert(digits_value(d) == n);
    } else {
        lemma_decimal(n / 10);
        assert(d.drop_last() =~= decimal(n / 10));
        assert(digit_value(digit_char(n % 10)) == n % 10);
        assert(digits_value(d) == digits_value(decimal(n / 10)) * 10 + digit_value(d.last()));
        assert((n / 10) * 10 + n % 10 == n);
        assert(d.last() == digit_char(n % 10));
        let q = digits_value(decimal(n / 10));
        assert(q == n / 10);
        assert(digits_value(d) == q * 10 + n % 10);
        assert(digits_value(d) == n);
    }
    assert forall|j: int| 0 <= j < d.len() implies d[j] != '.' by {
        assert(is_digit(d[j]));
    }
    lemma_first_index_of(d, '.', d.len() as int);
}

/// Rendering a version and parsing the text back gives the same components.
pub proof fn lemma_parse_format_round_trip(v: Seq<u32>)
    requires
        v.len() >= 1,
    ensures
        parse_version(format_version(v)) == Some(v),
    decreases v.len(),
{
    let x = v[0];
    lemma_decimal(x as nat);
    let d = decimal(x as nat);
    if v.len() == 1 {
        assert(seq![x] =~= v);
    } else {
        let rest = v.drop_first();
        lemma_parse_format_round_trip(rest);
        let s = format_version(v);
        assert(s == d + seq!['.'] + format_version(rest));
        assert forall|j: int| 0 <= j < d.len() implies s[j] != '.' by {
            assert(s[j] == d[j]);
            assert(is_digit(d[j]));
        }
        lemma_first_index_of(s, '.', d.len() as int);
        assert(s.take(d.len() as int) =~= d);
        assert(s.skip(d.len() as int + 1) =~= format_version(rest));
        assert(seq![x] + rest =~= v);
    }
}

/// Comparison is antisymmetric: swapping the arguments mirrors the result.
pub proof fn lemma_cmp_antisymmetric(a: Seq<u32>, b: Seq<u32>)
    ensures
        version_cmp(a, b) == Ordering::Less <==> version_cmp(b, a) == Ordering::Greater,
        version_cmp(a, b) == Ordering::Equal <==> version_cmp(b, a) == Ordering::Equal,
{
    lemma_cmp_from_antisymmetric(a, b, 0);
}

proof fn lemma_cmp_from_antisymmetric(a: Seq<u32>, b: Seq<u32>, i: int)
    requires
        i >= 0,
    ensures
        cmp_from(a, b, i) == Ordering::Less <==> cmp_from(b, a, i) == Ordering::Greater,
        cmp_from(a, b, i) == Ordering::Equal <==> cmp_from(b, a, i) == Ordering::Equal,
    decreases a.len() - i,
{
    if i < a.len() && i < b.len() && a[i] == b[i] {
        lemma_cmp_from_antisymmetric(a, b, i + 1);
    }
}

/// A strict ordering is transitive: `a < b` and `b < c` give `a < c`, and
/// likewise for `>`.
pub proof fn lemma_cmp_transitive(a: Seq<u32>, b: Seq<u32>, c: Seq<u32>, o: Ordering)
    requires
        o != Ordering::Equal,
        version_cmp(a, b) == o,
        version_cmp(b, c) == o,
    ensures
        version_cmp(a, c) == o,
{
    lemma_cmp_from_transitive(a, b, c, o, 0);
}

proof fn lemma_cmp_from_transitive(a: Seq<u32>, b: Seq<u32>, c: Seq<u32>, o: Ordering, i: int)
    requires
        i >= 0,
        o != Ordering::Equal,
        cmp_from(a, b, i) == o,
        cmp_from(b, c, i) == o,
    ensures
        cmp_from(a, c, i) == o,
    decreases a.len() - i,
{
    if a[i] == b[i] && b[i] == c[i] {
        lemma_cmp_from_transitive(a, b, c, o, i + 1);
    }
}

/// The empty string is not a version.
pub proof fn lemma_parse_empty_fails()
    ensures
        parse_version(Seq::<char>::empty()) is None,
{
}

/// A string holding a character that is neither a digit nor a dot is not a
/// version.
pub proof fn lemma_parse_non_digit_fails(s: Seq<char>, j: int)
    requires
        0 <= j < s.len(),
        !is_digit(s[j]),
        s[j] != '.',
    ensures
        parse_version(s) is None,
    decreases s.len(),
{
    let k = first_index_of(s, '.');
    lemma_first_index_of_props(s, '.');
    if k >= s.len() {
        assert(!all_digits(s));
    } else if j < k {
        assert(s.take(k as int)[j] == s[j]);
        assert(!all_digits(s.take(k as int)));
    } else {
        let t = s.skip(k as int + 1);
        assert(t[j - k - 1] == s[j]);
        lemma_parse_non_digit_fails(t, j - k - 1);
    }
}

proof fn lemma_first_index_of_props(s: Seq<char>, c: char)
    ensures
        first_index_of(s, c) <= s.len(),
        first_index_of(s, c) < s.len() ==> s[first_index_of(s, c) as int] == c,
        forall|j: int| 0 <= j < first_index_of(s, c) ==> s[j] != c,
    decreases s.len(),
{
    if s.len() > 0 && s[0] != c {
        lemma_first_index_of_props(s.drop_first(), c);
        assert forall|j: int| 0 <= j < first_index_of(s, c) implies s[j] != c by {
            if j > 0 {
                assert(s[j] == s.drop_first()[j - 1]);
            }
        }
    }
}

} // verus!
