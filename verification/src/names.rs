//! Names and text shared by every calculus: decimal numerals, fresh-name
//! generation for alpha-renaming, finite name collections kept in `Vec`s,
//! character classes used by the tokenizers, and string building.

use vstd::prelude::*;
use vstd::string::StrSliceExecFns;
use vstd::relations::injective_on;
use vstd::set_lib::*;

verus! {

// ===== character classes =====

/// An ASCII letter, `a`-`z` or `A`-`Z`.
pub open spec fn is_ascii_letter(c: char) -> bool {
    ('a' <= c && c <= 'z') || ('A' <= c && c <= 'Z')
}

/// Whether `char::is_alphabetic` holds of `c`: on ASCII, exactly the
/// letters; elsewhere the Unicode `Alphabetic` property.
pub open spec fn alphabetic(c: char) -> bool {
    if (c as u32) < 128 {
        is_ascii_letter(c)
    } else {
        unicode_alphabetic(c)
    }
}

/// Whether `char::is_alphanumeric` holds of `c`: on ASCII, exactly the
/// letters and digits; elsewhere the Unicode `Alphabetic` or `Numeric`
/// property.
pub open spec fn alphanumeric(c: char) -> bool {
    if (c as u32) < 128 {
        is_ascii_letter(c) || ('0' <= c && c <= '9')
    } else {
        unicode_alphanumeric(c)
    }
}

/// The Unicode `Alphabetic` property of a character (what `char::is_alphabetic`
/// reports).
pub uninterp spec fn unicode_alphabetic(c: char) -> bool;

/// The union of the Unicode `Alphabetic` and `Numeric` properties of a
/// character (what `char::is_alphanumeric` reports).
pub uninterp spec fn unicode_alphanumeric(c: char) -> bool;

/// The text that `{:?}` writes for a string: the string between double
/// quotes, with the characters that need it escaped.
pub uninterp spec fn string_debug_text(s: Seq<char>) -> Seq<char>;

/// The text that `{:?}` writes for a character: the character between
/// single quotes, escaped where needed.
pub uninterp spec fn char_debug_text(c: char) -> Seq<char>;

/// Calls `char::is_alphabetic`. The contract ties the answer to the
/// character through `unicode_alphabetic` and states it on ASCII, where the
/// Unicode `Alphabetic` property holds of the letters `a`-`z` and `A`-`Z`
/// alone; the tables for the other characters are not stated.
#[verifier::external_body]
pub fn is_alphabetic(c: char) -> (r: bool)
    ensures
        r == unicode_alphabetic(c),
        (c as u32) < 128 ==> (r <==> is_ascii_letter(c)),
        r == alphabetic(c),
{
    c.is_alphabetic()
}

/// Calls `char::is_alphanumeric`. The contract ties the answer to the
/// character through `unicode_alphanumeric`, and states what the
/// documentation of the function says: every alphabetic character is
/// alphanumeric. On ASCII it is stated exactly: the `Alphabetic` and
/// `Numeric` properties hold there of the letters and the digits `0`-`9`
/// alone. The tables for the other characters are not stated.
#[verifier::external_body]
pub fn is_alphanumeric(c: char) -> (r: bool)
    ensures
        r == unicode_alphanumeric(c),
        unicode_alphabetic(c) ==> r,
        (c as u32) < 128 ==> (r <==> is_ascii_letter(c) || ('0' <= c && c <= '9')),
        r == alphanumeric(c),
{
    c.is_alphanumeric()
}

/// Calls `format!("{:?}", s)` on a string slice: its Debug text, which the
/// contract names `string_debug_text` of the characters without stating it.
#[verifier::external_body]
pub fn debug_string(s: &str) -> (r: String)
    ensures
        r@ == string_debug_text(s@),
{
    format!("{:?}", s)
}

/// Calls `format!("{:?}", c)` on a character: its Debug text, which the
/// contract names `char_debug_text` of the character without stating it.
#[verifier::external_body]
pub fn debug_char(c: char) -> (r: String)
    ensures
        r@ == char_debug_text(c),
{
    format!("{:?}", c)
}

/// Calls `String::push`: the character is appended at the end.
#[verifier::external_body]
pub fn push_char(s: &mut String, c: char)
    ensures
        final(s)@ == old(s)@.push(c),
{
    s.push(c)
}

pub open spec fn is_digit_char(c: char) -> bool {
    '0' <= c && c <= '9'
}

/// `char::is_ascii_digit`: `'0'..='9'`.
pub fn is_ascii_digit(c: char) -> (r: bool)
    ensures
        r == is_digit_char(c),
{
    '0' <= c && c <= '9'
}

/// A 64-bit integer that equals `v` up to a multiple of 2^64: the result of
/// wrapping arithmetic whose exact value is `v`.
pub open spec fn wraps_to(r: i64, v: int) -> bool {
    (r - v) % 0x1_0000_0000_0000_0000int == 0
}

/// Whether two string slices hold the same characters.
pub fn str_eq(a: &str, b: &str) -> (r: bool)
    ensures
        r == (a@ == b@),
{
    let sa = String::from_str(a);
    let sb = String::from_str(b);
    sa == sb
}

/// The characters of a string slice, in order.
pub fn chars_of(s: &str) -> (v: Vec<char>)
    ensures
        v@ == s@,
{
    let n = s.unicode_len();
    let mut v: Vec<char> = Vec::new();
    let mut i: usize = 0;
    while i < n
        invariant
            n == s@.len(),
            i <= n,
            v@ == s@.take(i as int),
        decreases n - i,
    {
        v.push(s.get_char(i));
        assert(s@.take(i as int).push(s@[i as int]) =~= s@.take(i + 1));
        i = i + 1;
    }
    assert(s@.take(n as int) =~= s@);
    v
}

/// The string made of the given characters.
pub fn string_of(cs: &Vec<char>) -> (s: String)
    ensures
        s@ == cs@,
{
    let mut s = String::new();
    let mut i: usize = 0;
    while i < cs.len()
        invariant
            i <= cs.len(),
            s@ == cs@.take(i as int),
        decreases cs.len() - i,
    {
        push_char(&mut s, cs[i]);
        assert(cs@.take(i as int).push(cs@[i as int]) =~= cs@.take(i + 1));
        i = i + 1;
    }
    assert(cs@.take(cs.len() as int) =~= cs@);
    s
}

/// A new string holding `a` followed by `b`.
pub fn concat(a: &str, b: &str) -> (s: String)
    ensures
        s@ == a@ + b@,
{
    let mut s = String::from_str(a);
    s.append(b);
    s
}

// ===== decimal numerals =====

pub open spec fn digit_of(d: nat) -> char {
    (48 + d) as char
}

/// The decimal numeral of a natural number, most significant digit first.
pub open spec fn dec(n: nat) -> Seq<char>
    decreases n,
{
    if n < 10 {
        seq![digit_of(n)]
    } else {
        dec(n / 10).push(digit_of(n % 10))
    }
}

/// The decimal numeral of an integer, with a leading `-` when negative.
pub open spec fn dec_int(n: int) -> Seq<char> {
    if n < 0 {
        seq!['-'] + dec((-n) as nat)
    } else {
        dec(n as nat)
    }
}

/// The number a numeral of decimal digits denotes.
pub open spec fn numeral_value(s: Seq<char>) -> int
    decreases s.len(),
{
    if s.len() == 0 {
        0
    } else {
        numeral_value(s.drop_last()) * 10 + ((s.last() as int) - 48)
    }
}

pub proof fn lemma_dec_value(n: nat)
    ensures
        numeral_value(dec(n)) == n,
        dec(n).len() >= 1,
    decreases n,
{
    if n < 10 {
        assert(dec(n).drop_last() =~= Seq::<char>::empty());
        assert(digit_of(n) as int == 48 + n);
        assert(numeral_value(Seq::<char>::empty()) == 0);
        assert(numeral_value(dec(n)) == numeral_value(dec(n).drop_last()) * 10 + ((dec(n).last() as int) - 48));
    } else {
        lemma_dec_value(n / 10);
        assert(dec(n).drop_last() =~= dec(n / 10));
        assert(dec(n).last() == digit_of(n % 10));
        assert(digit_of(n % 10) as int == 48 + n % 10);
        assert((n / 10) * 10 + n % 10 == n) by (nonlinear_arith);
        assert(numeral_value(dec(n)) == numeral_value(dec(n).drop_last()) * 10 + ((dec(n).last() as int) - 48));
    }
}

/// Distinct numbers have distinct numerals.
pub proof fn lemma_dec_injective(i: nat, j: nat)
    requires
        dec(i) == dec(j),
    ensures
        i == j,
{
    lemma_dec_value(i);
    lemma_dec_value(j);
}

fn digit_char(d: u128) -> (c: char)
    requires
        d < 10,
    ensures
        c == digit_of(d as nat),
{
    let b: u8 = (48 + d) as u8;
    b as char
}

/// `format!("{}", n)` for an unsigned number.
pub fn decimal(n: u128) -> (s: String)
    ensures
        s@ == dec(n as nat),
    decreases n,
{
    if n < 10 {
        let mut s = String::new();
        push_char(&mut s, digit_char(n));
        s
    } else {
        let mut s = decimal(n / 10);
        push_char(&mut s, digit_char(n % 10));
        s
    }
}

/// `format!("{}", n)` for a signed number.
pub fn decimal_i64(n: i64) -> (s: String)
    ensures
        s@ == dec_int(n as int),
{
    if n < 0 {
        let m: u128 = (0i128 - (n as i128)) as u128;
        let tail = decimal(m);
        let mut s = String::new();
        push_char(&mut s, '-');
        s.append(tail.as_str());
        assert(s@ =~= seq!['-'] + dec((-(n as int)) as nat));
        s
    } else {
        decimal(n as u128)
    }
}

/// Reading a numeral digit by digit never makes its value smaller.
pub proof fn lemma_numeral_prefix(s: Seq<char>, k: int)
    requires
        0 <= k <= s.len(),
        forall|i: int| 0 <= i < s.len() ==> is_digit_char(#[trigger] s[i]),
    ensures
        numeral_value(s.take(k)) <= numeral_value(s),
        numeral_value(s) >= 0,
    decreases s.len(),
{
    if s.len() > 0 {
        assert forall|i: int| 0 <= i < s.drop_last().len() implies is_digit_char(#[trigger] s.drop_last()[i]) by {
            assert(s.drop_last()[i] == s[i]);
        }
        if k < s.len() {
            assert(s.drop_last().take(k) =~= s.take(k));
            lemma_numeral_prefix(s.drop_last(), k);
        } else {
            assert(s.take(k) =~= s);
            lemma_numeral_prefix(s.drop_last(), 0);
        }
        assert(is_digit_char(s.last()));
    } else {
        assert(s.take(k) =~= s);
    }
}

// ===== collections of names =====

/// The names of a vector of strings, as character sequences.
pub open spec fn names_of(v: Seq<String>) -> Seq<Seq<char>> {
    v.map_values(|s: String| s@)
}

/// The set of names held by a vector of strings.
pub open spec fn name_set(v: Seq<String>) -> Set<Seq<char>> {
    Set::new(|n: Seq<char>| exists|i: int| 0 <= i < v.len() && (#[trigger] v[i])@ == n)
}

/// No name occurs twice.
pub open spec fn distinct_names(v: Seq<String>) -> bool {
    forall|i: int, j: int| 0 <= i < j < v.len() ==> (#[trigger] v[i])@ != (#[trigger] v[j])@
}

pub proof fn lemma_name_set_finite(v: Seq<String>)
    ensures
        name_set(v).finite(),
        name_set(v).len() <= v.len(),
{
    assert(name_set(v) =~= names_of(v).to_set()) by {
        assert forall|n: Seq<char>| name_set(v).contains(n) implies names_of(v).to_set().contains(n) by {
            let i = choose|i: int| 0 <= i < v.len() && (#[trigger] v[i])@ == n;
            assert(names_of(v)[i] == n);
        }
        assert forall|n: Seq<char>| names_of(v).to_set().contains(n) implies name_set(v).contains(n) by {
            let i = choose|i: int| 0 <= i < names_of(v).len() && names_of(v)[i] == n;
            assert(v[i]@ == n);
        }
    }
    names_of(v).lemma_cardinality_of_set();
}

pub proof fn lemma_name_set_push(v: Seq<String>, s: String)
    ensures
        name_set(v.push(s)) == name_set(v).insert(s@),
{
    let w = v.push(s);
    assert forall|n: Seq<char>| name_set(w).contains(n) <==> name_set(v).insert(s@).contains(n) by {
        if name_set(v).contains(n) {
            let i = choose|i: int| 0 <= i < v.len() && (#[trigger] v[i])@ == n;
            assert(w[i] == v[i]);
        }
        if name_set(w).contains(n) && n != s@ {
            let i = choose|i: int| 0 <= i < w.len() && (#[trigger] w[i])@ == n;
            assert(v[i] == w[i]);
        }
        if n == s@ {
            assert(w[v.len() as int] == s);
        }
    }
    assert(name_set(w) =~= name_set(v).insert(s@));
}

pub proof fn lemma_name_set_empty(v: Seq<String>)
    requires
        v.len() == 0,
    ensures
        name_set(v) == Set::<Seq<char>>::empty(),
{
    assert(name_set(v) =~= Set::<Seq<char>>::empty());
}

/// Whether a vector of strings holds the given name.
pub fn contains_name(v: &Vec<String>, x: &String) -> (r: bool)
    ensures
        r == name_set(v@).contains(x@),
{
    let mut i: usize = 0;
    while i < v.len()
        invariant
            i <= v.len(),
            forall|j: int| 0 <= j < i ==> (#[trigger] v@[j])@ != x@,
        decreases v.len() - i,
    {
        if v[i] == *x {
            assert(v@[i as int]@ == x@);
            return true;
        }
        i = i + 1;
    }
    false
}

/// Adds a name unless it is already there.
pub fn insert_name(v: &mut Vec<String>, x: &String)
    ensures
        name_set(final(v)@) == name_set(old(v)@).insert(x@),
        distinct_names(old(v)@) ==> distinct_names(final(v)@),
{
    if !contains_name(v, x) {
        let ghost old_v = v@;
        v.push(x.clone());
        proof {
            lemma_name_set_push(old_v, *x);
            assert forall|i: int| 0 <= i < old_v.len() implies (#[trigger] old_v[i])@ != x@ by {}
        }
    } else {
        assert(name_set(v@) =~= name_set(v@).insert(x@));
    }
}

/// Adds every name of `other`.
pub fn extend_names(acc: &mut Vec<String>, other: &Vec<String>)
    ensures
        name_set(final(acc)@) == name_set(old(acc)@).union(name_set(other@)),
        distinct_names(old(acc)@) ==> distinct_names(final(acc)@),
{
    let ghost start = acc@;
    let mut i: usize = 0;
    while i < other.len()
        invariant
            i <= other.len(),
            name_set(acc@) == name_set(start).union(name_set(other@.take(i as int))),
            distinct_names(start) ==> distinct_names(acc@),
        decreases other.len() - i,
    {
        insert_name(acc, &other[i]);
        proof {
            assert(other@.take(i + 1) =~= other@.take(i as int).push(other@[i as int]));
            lemma_name_set_push(other@.take(i as int), other@[i as int]);
        }
        assert(name_set(acc@) =~= name_set(start).union(name_set(other@.take(i + 1))));
        i = i + 1;
    }
    assert(other@.take(other.len() as int) =~= other@);
}

/// The names of `v` other than `x`.
pub fn remove_name(v: &Vec<String>, x: &String) -> (r: Vec<String>)
    ensures
        name_set(r@) == name_set(v@).remove(x@),
        distinct_names(v@) ==> distinct_names(r@),
{
    let mut r: Vec<String> = Vec::new();
    let mut i: usize = 0;
    proof {
        lemma_name_set_empty(r@);
        lemma_name_set_empty(v@.take(0));
    }
    while i < v.len()
        invariant
            i <= v.len(),
            name_set(r@) == name_set(v@.take(i as int)).remove(x@),
            distinct_names(v@) ==> distinct_names(r@),
            forall|k: int| 0 <= k < r.len() ==> exists|j: int| 0 <= j < i && (#[trigger] r@[k]) == v@[j],
        decreases v.len() - i,
    {
        let ghost prev = r@;
        proof {
            assert(v@.take(i + 1) =~= v@.take(i as int).push(v@[i as int]));
            lemma_name_set_push(v@.take(i as int), v@[i as int]);
        }
        if v[i] != *x {
            r.push(v[i].clone());
            proof {
                lemma_name_set_push(prev, v@[i as int]);
                if distinct_names(v@) {
                    assert forall|a: int, b: int| 0 <= a < b < r@.len() implies (#[trigger] r@[a])@ != (#[trigger] r@[b])@ by {
                        if b == r@.len() - 1 {
                            let j = choose|j: int| 0 <= j < i && (#[trigger] prev[a]) == v@[j];
                            assert(r@[a] == prev[a]);
                        } else {
                            assert(r@[a] == prev[a] && r@[b] == prev[b]);
                        }
                    }
                }
                assert forall|k: int| 0 <= k < r.len() implies exists|j: int| 0 <= j < i + 1 && (#[trigger] r@[k]) == v@[j] by {
                    if k < prev.len() {
                        let j = choose|j: int| 0 <= j < i && (#[trigger] prev[k]) == v@[j];
                        assert(r@[k] == v@[j]);
                    } else {
                        assert(r@[k] == v@[i as int]);
                    }
                }
            }
            assert(name_set(r@) =~= name_set(v@.take(i + 1)).remove(x@));
        } else {
            assert(name_set(r@) =~= name_set(v@.take(i + 1)).remove(x@));
        }
        i = i + 1;
    }
    assert(v@.take(v.len() as int) =~= v@);
    r
}

// ===== finite maps keyed by names =====

/// Values that can be copied with a proved copy.
pub trait Dup: View + Sized {
    fn dup(&self) -> (r: Self)
        ensures
            r@ == self@,
    ;
}

/// A finite map from names to values. A later binding of a name hides
/// earlier ones, as an insertion into a map replaces the old value.
#[derive(Debug)]
pub struct NameMap<V> {
    pub entries: Vec<(String, V)>,
}

/// The map denoted by a list of bindings, later bindings winning.
pub open spec fn bindings_map<V: View>(s: Seq<(String, V)>) -> Map<Seq<char>, V::V>
    decreases s.len(),
{
    if s.len() == 0 {
        Map::empty()
    } else {
        bindings_map(s.drop_last()).insert(s.last().0@, s.last().1@)
    }
}

impl<V: View> View for NameMap<V> {
    type V = Map<Seq<char>, V::V>;

    open spec fn view(&self) -> Map<Seq<char>, V::V> {
        bindings_map(self.entries@)
    }
}

/// Whether a later binding hides the one at `j`.
pub open spec fn shadowed<V>(s: Seq<(String, V)>, j: int) -> bool {
    exists|i: int| j < i < s.len() && (#[trigger] s[i]).0@ == s[j].0@
}

/// The map of a list of bindings holds, for each of its keys, the last
/// binding of that key.
pub proof fn lemma_bindings_live<V: View>(s: Seq<(String, V)>, k: Seq<char>)
    ensures
        bindings_map(s).contains_key(k) <==> exists|j: int|
            0 <= j < s.len() && (#[trigger] s[j]).0@ == k && !shadowed(s, j),
        forall|j: int|
            0 <= j < s.len() && (#[trigger] s[j]).0@ == k && !shadowed(s, j) ==> bindings_map(s)[k]
                == s[j].1@,
    decreases s.len(),
{
    if s.len() > 0 {
        let p = s.drop_last();
        lemma_bindings_live(p, k);
        let last = s.len() - 1;
        assert forall|j: int| 0 <= j < p.len() && (#[trigger] p[j]).0@ == k implies (!shadowed(p, j)
            && s.last().0@ != k) == !shadowed(s, j) by {
            assert(p[j] == s[j]);
            if shadowed(s, j) {
                let i = choose|i: int| j < i < s.len() && (#[trigger] s[i]).0@ == s[j].0@;
                if i < last {
                    assert(p[i] == s[i]);
                }
            }
            if shadowed(p, j) {
                let i = choose|i: int| j < i < p.len() && (#[trigger] p[i]).0@ == p[j].0@;
                assert(p[i] == s[i]);
            }
        }
        if s.last().0@ == k {
            assert(!shadowed(s, last));
        } else {
            assert forall|j: int| 0 <= j < s.len() && (#[trigger] s[j]).0@ == k && !shadowed(s, j) implies 0
                <= j < p.len() && p[j].0@ == k && !shadowed(p, j) by {
                assert(j != last);
                assert(p[j] == s[j]);
            }
            if exists|j: int| 0 <= j < p.len() && (#[trigger] p[j]).0@ == k && !shadowed(p, j) {
                let j = choose|j: int| 0 <= j < p.len() && (#[trigger] p[j]).0@ == k && !shadowed(p, j);
                assert(p[j] == s[j]);
            }
        }
    }
}

/// A list of bindings denotes a finite map.
pub proof fn lemma_bindings_finite<V: View>(s: Seq<(String, V)>)
    ensures
        bindings_map(s).dom().finite(),
    decreases s.len(),
{
    if s.len() > 0 {
        lemma_bindings_finite(s.drop_last());
    }
}

/// Adding a binding at the end inserts it into the map.
pub proof fn lemma_bindings_push<V: View>(s: Seq<(String, V)>, e: (String, V))
    ensures
        bindings_map(s.push(e)) == bindings_map(s).insert(e.0@, e.1@),
{
    assert(s.push(e).drop_last() =~= s);
}

/// The bindings of a prefix one longer than another.
pub proof fn lemma_bindings_take<V: View>(s: Seq<(String, V)>, i: int)
    requires
        0 <= i < s.len(),
    ensures
        bindings_map(s.take(i + 1)) == bindings_map(s.take(i)).insert(s[i].0@, s[i].1@),
{
    assert(s.take(i + 1) =~= s.take(i).push(s[i]));
    lemma_bindings_push(s.take(i), s[i]);
}

proof fn lemma_bindings_skip<V: View>(s: Seq<(String, V)>, i: int, x: Seq<char>)
    requires
        0 <= i <= s.len(),
        forall|j: int| i <= j < s.len() ==> (#[trigger] s[j]).0@ != x,
    ensures
        bindings_map(s).contains_key(x) == bindings_map(s.take(i)).contains_key(x),
        bindings_map(s).contains_key(x) ==> bindings_map(s)[x] == bindings_map(s.take(i))[x],
    decreases s.len() - i,
{
    if i < s.len() {
        assert(s.drop_last().take(i) =~= s.take(i));
        assert forall|j: int| i <= j < s.drop_last().len() implies (#[trigger] s.drop_last()[j]).0@ != x by {
            assert(s.drop_last()[j] == s[j]);
        }
        lemma_bindings_skip(s.drop_last(), i, x);
    } else {
        assert(s.take(i) =~= s);
    }
}

impl<V: View + Dup> NameMap<V> {
    pub fn new() -> (m: NameMap<V>)
        ensures
            m@ == Map::<Seq<char>, V::V>::empty(),
    {
        NameMap { entries: Vec::new() }
    }

    /// Binds `k` to `v`, hiding an earlier binding of `k`.
    pub fn insert(&mut self, k: String, v: V)
        ensures
            final(self)@ == old(self)@.insert(k@, v@),
    {
        let ghost old_entries = self.entries@;
        self.entries.push((k, v));
        assert(self.entries@.drop_last() =~= old_entries);
    }

    /// The value bound to `k`, if any.
    pub fn get(&self, k: &String) -> (r: Option<&V>)
        ensures
            match r {
                Some(v) => self@.contains_key(k@) && self@[k@] == v@,
                None => !self@.contains_key(k@),
            },
    {
        let mut i = self.entries.len();
        while i > 0
            invariant
                i <= self.entries.len(),
                forall|j: int| i <= j < self.entries.len() ==> (#[trigger] self.entries@[j]).0@ != k@,
            decreases i,
        {
            let e = &self.entries[i - 1];
            if e.0 == *k {
                proof {
                    let s = self.entries@;
                    lemma_bindings_skip(s, i as int, k@);
                    assert(s.take(i as int).drop_last() =~= s.take(i - 1));
                    assert(s.take(i as int).last() == s[i - 1]);
                }
                return Some(&e.1);
            }
            i = i - 1;
        }
        proof {
            lemma_bindings_skip(self.entries@, 0, k@);
            assert(self.entries@.take(0).len() == 0);
        }
        None
    }

    /// A copy of the map.
    pub fn dup_map(&self) -> (r: NameMap<V>)
        ensures
            r@ == self@,
    {
        let mut out: Vec<(String, V)> = Vec::new();
        let mut i: usize = 0;
        while i < self.entries.len()
            invariant
                i <= self.entries.len(),
                out@.len() == i,
                forall|j: int| 0 <= j < i ==> (#[trigger] out@[j]).0@ == self.entries@[j].0@ && out@[j].1@ == self.entries@[j].1@,
            decreases self.entries.len() - i,
        {
            let e = &self.entries[i];
            out.push((e.0.clone(), e.1.dup()));
            i = i + 1;
        }
        proof {
            lemma_bindings_same(out@, self.entries@);
        }
        NameMap { entries: out }
    }
}

proof fn lemma_bindings_same<V: View>(a: Seq<(String, V)>, b: Seq<(String, V)>)
    requires
        a.len() == b.len(),
        forall|j: int| 0 <= j < a.len() ==> (#[trigger] a[j]).0@ == b[j].0@ && a[j].1@ == b[j].1@,
    ensures
        bindings_map(a) == bindings_map(b),
    decreases a.len(),
{
    if a.len() > 0 {
        assert forall|j: int| 0 <= j < a.drop_last().len() implies (#[trigger] a.drop_last()[j]).0@ == b.drop_last()[j].0@ && a.drop_last()[j].1@ == b.drop_last()[j].1@ by {
            assert(a.drop_last()[j] == a[j] && b.drop_last()[j] == b[j]);
        }
        lemma_bindings_same(a.drop_last(), b.drop_last());
    }
}

// ===== fresh names =====

/// The leading characters of `s` before its first ASCII digit.
pub open spec fn non_digit_prefix(s: Seq<char>) -> Seq<char>
    decreases s.len(),
{
    if s.len() == 0 || is_digit_char(s[0]) {
        Seq::<char>::empty()
    } else {
        seq![s[0]] + non_digit_prefix(s.drop_first())
    }
}

/// The stem numbered candidates are built from: `base` up to its first
/// digit, or all of `base` when that prefix is empty.
pub open spec fn name_stem(base: Seq<char>) -> Seq<char> {
    if non_digit_prefix(base).len() == 0 {
        base
    } else {
        non_digit_prefix(base)
    }
}

/// The `i`-th candidate name: the stem followed by the numeral of `i`.
pub open spec fn candidate(base: Seq<char>, i: nat) -> Seq<char> {
    name_stem(base) + dec(i)
}

/// `i >= 1`, its candidate is not in `avoid`, and every smaller one is.
pub open spec fn is_first_free(base: Seq<char>, avoid: Set<Seq<char>>, i: nat) -> bool {
    &&& i >= 1
    &&& !avoid.contains(candidate(base, i))
    &&& forall|j: nat| 1 <= j < i ==> avoid.contains(#[trigger] candidate(base, j))
}

/// The smallest `i >= 1` whose candidate is not in `avoid`.
pub open spec fn fresh_index(base: Seq<char>, avoid: Set<Seq<char>>) -> nat {
    choose|i: nat| is_first_free(base, avoid, i)
}

/// A name not in `avoid`: `base` itself when it is free, otherwise the first
/// free numbered candidate.
pub open spec fn fresh_name_spec(base: Seq<char>, avoid: Set<Seq<char>>) -> Seq<char> {
    if !avoid.contains(base) {
        base
    } else {
        candidate(base, fresh_index(base, avoid))
    }
}

proof fn lemma_candidate_injective(base: Seq<char>, i: nat, j: nat)
    requires
        candidate(base, i) == candidate(base, j),
    ensures
        i == j,
{
    let st = name_stem(base);
    assert(dec(i) =~= candidate(base, i).subrange(st.len() as int, candidate(base, i).len() as int));
    assert(dec(j) =~= candidate(base, j).subrange(st.len() as int, candidate(base, j).len() as int));
    lemma_dec_injective(i, j);
}

/// If the first `k` candidates all lie in a finite set, the set has at
/// least `k` elements.
proof fn lemma_candidates_pigeonhole_set(base: Seq<char>, avoid: Set<Seq<char>>, k: nat)
    requires
        avoid.finite(),
        forall|j: nat| 1 <= j <= k ==> avoid.contains(#[trigger] candidate(base, j)),
    ensures
        k <= avoid.len(),
{
    let f = |j: int| candidate(base, j as nat);
    let dom = set_int_range(1, (k + 1) as int);
    lemma_int_range(1, (k + 1) as int);
    let img = dom.map(f);
    assert(injective_on(f, dom)) by {
        assert forall|a: int, b: int| dom.contains(a) && dom.contains(b) && #[trigger] f(a) == #[trigger] f(b) implies a == b by {
            lemma_candidate_injective(base, a as nat, b as nat);
        }
    }
    lemma_map_size(dom, img, f);
    assert(img.subset_of(avoid)) by {
        assert forall|n: Seq<char>| img.contains(n) implies avoid.contains(n) by {
            let a = choose|a: int| dom.contains(a) && f(a) == n;
            assert(avoid.contains(candidate(base, a as nat)));
        }
    }
    lemma_len_subset(img, avoid);
}

proof fn lemma_candidates_pigeonhole(base: Seq<char>, v: Seq<String>, k: nat)
    requires
        forall|j: nat| 1 <= j <= k ==> name_set(v).contains(#[trigger] candidate(base, j)),
    ensures
        k <= v.len(),
{
    lemma_name_set_finite(v);
    lemma_candidates_pigeonhole_set(base, name_set(v), k);
}

proof fn lemma_first_free_below(base: Seq<char>, avoid: Set<Seq<char>>, k: nat)
    requires
        k >= 1,
        !avoid.contains(candidate(base, k)),
    ensures
        exists|i: nat| is_first_free(base, avoid, i),
    decreases k,
{
    if forall|j: nat| 1 <= j < k ==> avoid.contains(#[trigger] candidate(base, j)) {
        assert(is_first_free(base, avoid, k));
    } else {
        let j = choose|j: nat| 1 <= j < k && !avoid.contains(#[trigger] candidate(base, j));
        lemma_first_free_below(base, avoid, j);
    }
}

/// A fresh name for a finite set of names is not in it.
pub proof fn lemma_fresh_name_fresh(base: Seq<char>, avoid: Set<Seq<char>>)
    requires
        avoid.finite(),
    ensures
        !avoid.contains(fresh_name_spec(base, avoid)),
{
    if avoid.contains(base) {
        let k = avoid.len() + 1;
        if forall|j: nat| 1 <= j <= k ==> avoid.contains(#[trigger] candidate(base, j)) {
            lemma_candidates_pigeonhole_set(base, avoid, k);
        }
        let j = choose|j: nat| 1 <= j <= k && !avoid.contains(#[trigger] candidate(base, j));
        lemma_first_free_below(base, avoid, j);
    }
}

fn non_digit_prefix_exec(s: &Vec<char>) -> (r: Vec<char>)
    ensures
        r@ == non_digit_prefix(s@),
{
    let mut i: usize = 0;
    while i < s.len() && !is_ascii_digit(s[i])
        invariant
            i <= s.len(),
            forall|j: int| 0 <= j < i ==> !is_digit_char(s@[j]),
        decreases s.len() - i,
    {
        i = i + 1;
    }
    let mut r: Vec<char> = Vec::new();
    let mut j: usize = 0;
    while j < i
        invariant
            j <= i <= s.len(),
            r@ == s@.take(j as int),
        decreases i - j,
    {
        r.push(s[j]);
        assert(s@.take(j as int).push(s@[j as int]) =~= s@.take(j + 1));
        j = j + 1;
    }
    proof {
        lemma_non_digit_prefix(s@, i as int);
    }
    r
}

proof fn lemma_non_digit_prefix(s: Seq<char>, i: int)
    requires
        0 <= i <= s.len(),
        forall|j: int| 0 <= j < i ==> !is_digit_char(s[j]),
        i == s.len() || is_digit_char(s[i]),
    ensures
        non_digit_prefix(s) == s.take(i),
    decreases s.len(),
{
    if s.len() == 0 || is_digit_char(s[0]) {
        assert(s.take(i) =~= Seq::<char>::empty());
    } else {
        let t = s.drop_first();
        assert forall|j: int| 0 <= j < i - 1 implies !is_digit_char(t[j]) by {
            assert(t[j] == s[j + 1]);
        }
        if i - 1 < t.len() {
            assert(t[i - 1] == s[i]);
        }
        lemma_non_digit_prefix(t, i - 1);
        assert(seq![s[0]] + t.take(i - 1) =~= s.take(i));
    }
}

/// A name close to `base` that is not in `avoid`: `base` itself if it is
/// free, otherwise its digit-free stem followed by 1, 2, 3, ... until the
/// first free one.
pub fn fresh_name(base: &String, avoid: &Vec<String>) -> (r: String)
    ensures
        r@ == fresh_name_spec(base@, name_set(avoid@)),
        !name_set(avoid@).contains(r@),
{
    if !contains_name(avoid, base) {
        return base.clone();
    }
    let cs = chars_of(base.as_str());
    let pre = non_digit_prefix_exec(&cs);
    let stem: String = if pre.len() == 0 {
        base.clone()
    } else {
        string_of(&pre)
    };
    assert(stem@ == name_stem(base@));
    let ghost avoid_set = name_set(avoid@);
    let mut i: u128 = 1;
    loop
        invariant
            1 <= i <= avoid.len() + 1,
            stem@ == name_stem(base@),
            avoid_set == name_set(avoid@),
            avoid_set.contains(base@),
            forall|j: nat| 1 <= j < i ==> avoid_set.contains(#[trigger] candidate(base@, j)),
        decreases avoid.len() + 1 - i,
    {
        let num = decimal(i);
        let cand = concat(stem.as_str(), num.as_str());
        assert(cand@ == candidate(base@, i as nat));
        if !contains_name(avoid, &cand) {
            proof {
                assert(is_first_free(base@, avoid_set, i as nat));
                let c = fresh_index(base@, avoid_set);
                assert(is_first_free(base@, avoid_set, c));
                if c < i {
                    assert(avoid_set.contains(candidate(base@, c)));
                }
                if c > i {
                    assert(avoid_set.contains(candidate(base@, i as nat)));
                }
                assert(c == i);
            }
            return cand;
        }
        proof {
            assert forall|j: nat| 1 <= j <= i implies name_set(avoid@).contains(
                #[trigger] candidate(base@, j),
            ) by {}
            lemma_candidates_pigeonhole(base@, avoid@, i as nat);
        }
        i = i + 1;
    }
}

// ===== ordering of names =====

/// The order of names: by character code, a proper prefix first (the
/// order of `String`'s `<`).
pub open spec fn name_lt(a: Seq<char>, b: Seq<char>) -> bool
    decreases a.len(),
{
    if a.len() == 0 {
        b.len() > 0
    } else if b.len() == 0 {
        false
    } else if a[0] != b[0] {
        (a[0] as int) < (b[0] as int)
    } else {
        name_lt(a.drop_first(), b.drop_first())
    }
}

pub proof fn lemma_name_lt_irreflexive(a: Seq<char>)
    ensures
        !name_lt(a, a),
    decreases a.len(),
{
    if a.len() > 0 {
        lemma_name_lt_irreflexive(a.drop_first());
    }
}

pub proof fn lemma_name_lt_asymmetric(a: Seq<char>, b: Seq<char>)
    requires
        name_lt(a, b),
    ensures
        !name_lt(b, a),
    decreases a.len(),
{
    if a.len() > 0 && b.len() > 0 && a[0] == b[0] {
        lemma_name_lt_asymmetric(a.drop_first(), b.drop_first());
    }
}

pub proof fn lemma_name_lt_transitive(a: Seq<char>, b: Seq<char>, c: Seq<char>)
    requires
        name_lt(a, b),
        name_lt(b, c),
    ensures
        name_lt(a, c),
    decreases a.len(),
{
    if a.len() > 0 && b.len() > 0 && c.len() > 0 && a[0] == b[0] && b[0] == c[0] {
        lemma_name_lt_transitive(a.drop_first(), b.drop_first(), c.drop_first());
    }
}

pub proof fn lemma_name_lt_total(a: Seq<char>, b: Seq<char>)
    requires
        a != b,
    ensures
        name_lt(a, b) || name_lt(b, a),
    decreases a.len(),
{
    if a.len() > 0 && b.len() > 0 && a[0] == b[0] {
        if a.drop_first() == b.drop_first() {
            assert(a =~= seq![a[0]] + a.drop_first());
            assert(b =~= seq![b[0]] + b.drop_first());
        }
        lemma_name_lt_total(a.drop_first(), b.drop_first());
    } else if a.len() == 0 && b.len() == 0 {
        assert(a =~= b);
    }
}

/// Whether `a` comes before `b` in the order of names.
pub fn name_less(a: &String, b: &String) -> (r: bool)
    ensures
        r == name_lt(a@, b@),
{
    let ca = chars_of(a.as_str());
    let cb = chars_of(b.as_str());
    let mut i: usize = 0;
    assert(a@.skip(0) =~= a@);
    assert(b@.skip(0) =~= b@);
    while i < ca.len() && i < cb.len()
        invariant
            i <= ca.len(),
            i <= cb.len(),
            ca@ == a@,
            cb@ == b@,
            name_lt(a@, b@) == name_lt(a@.skip(i as int), b@.skip(i as int)),
        decreases ca.len() - i,
    {
        assert(a@.skip(i as int)[0] == ca@[i as int]);
        assert(b@.skip(i as int)[0] == cb@[i as int]);
        if ca[i] != cb[i] {
            return ca[i] < cb[i];
        }
        assert(a@.skip(i as int).drop_first() =~= a@.skip(i + 1));
        assert(b@.skip(i as int).drop_first() =~= b@.skip(i + 1));
        i = i + 1;
    }
    assert(a@.skip(i as int).len() == ca.len() - i);
    assert(b@.skip(i as int).len() == cb.len() - i);
    i < cb.len()
}

/// A list of names in strictly increasing order.
pub open spec fn strictly_sorted(v: Seq<Seq<char>>) -> bool {
    forall|i: int, j: int| 0 <= i < j < v.len() ==> name_lt(#[trigger] v[i], #[trigger] v[j])
}

/// Two strictly sorted lists of the same names are the same list.
pub proof fn lemma_sorted_unique(p: Seq<Seq<char>>, q: Seq<Seq<char>>)
    requires
        strictly_sorted(p),
        strictly_sorted(q),
        p.to_set() == q.to_set(),
    ensures
        p == q,
    decreases p.len(),
{
    if p.len() == 0 {
        if q.len() > 0 {
            assert(q.to_set().contains(q[0]));
        }
        assert(p =~= q);
    } else {
        assert(p.to_set().contains(p[0]));
        assert(q.to_set().contains(p[0]));
        assert(q.len() > 0);
        assert(q.to_set().contains(q[0]));
        assert(p.to_set().contains(q[0]));
        if p[0] != q[0] {
            let i = choose|i: int| 0 <= i < p.len() && p[i] == q[0];
            let j = choose|j: int| 0 <= j < q.len() && q[j] == p[0];
            assert(name_lt(p[0], p[i]));
            assert(name_lt(q[0], q[j]));
            lemma_name_lt_asymmetric(p[0], q[0]);
        }
        let p1 = p.drop_first();
        let q1 = q.drop_first();
        assert forall|x: Seq<char>| p1.to_set().contains(x) <==> q1.to_set().contains(x) by {
            if p1.to_set().contains(x) {
                let i = choose|i: int| 0 <= i < p1.len() && p1[i] == x;
                assert(p[i + 1] == x);
                assert(name_lt(p[0], x));
                lemma_name_lt_irreflexive(x);
                assert(q.to_set().contains(x));
                let j = choose|j: int| 0 <= j < q.len() && q[j] == x;
                assert(j != 0);
                assert(q1[j - 1] == x);
            }
            if q1.to_set().contains(x) {
                let i = choose|i: int| 0 <= i < q1.len() && q1[i] == x;
                assert(q[i + 1] == x);
                assert(name_lt(q[0], x));
                lemma_name_lt_irreflexive(x);
                assert(p.to_set().contains(x));
                let j = choose|j: int| 0 <= j < p.len() && p[j] == x;
                assert(j != 0);
                assert(p1[j - 1] == x);
            }
        }
        assert(p1.to_set() =~= q1.to_set());
        assert forall|a: int, b: int| 0 <= a < b < p1.len() implies name_lt(#[trigger] p1[a], #[trigger] p1[b]) by {
            assert(p1[a] == p[a + 1] && p1[b] == p[b + 1]);
        }
        assert forall|a: int, b: int| 0 <= a < b < q1.len() implies name_lt(#[trigger] q1[a], #[trigger] q1[b]) by {
            assert(q1[a] == q[a + 1] && q1[b] == q[b + 1]);
        }
        lemma_sorted_unique(p1, q1);
        assert forall|i: int| 0 <= i < p.len() implies p[i] == q[i] by {
            if i > 0 {
                assert(p[i] == p1[i - 1]);
                assert(q[i] == q1[i - 1]);
            }
        }
        assert(p =~= q);
    }
}

/// The names of a finite set in increasing order.
pub open spec fn sorted_names(s: Set<Seq<char>>) -> Seq<Seq<char>> {
    choose|q: Seq<Seq<char>>| strictly_sorted(q) && q.to_set() == s
}

/// The names of `v` in increasing order; `v` holds each name once.
pub fn sort_names(v: &Vec<String>) -> (r: Vec<String>)
    requires
        distinct_names(v@),
    ensures
        names_of(r@) == sorted_names(name_set(v@)),
        names_of(r@).to_set() == name_set(v@),
        strictly_sorted(names_of(r@)),
        distinct_names(r@),
{
    let mut r: Vec<String> = Vec::new();
    let mut i: usize = 0;
    while i < v.len()
        invariant
            i <= v.len(),
            distinct_names(v@),
            strictly_sorted(names_of(r@)),
            forall|n: Seq<char>| names_of(r@).to_set().contains(n) <==> exists|k: int|
                0 <= k < i && (#[trigger] v@[k])@ == n,
        decreases v.len() - i,
    {
        let x = &v[i];
        let mut p: usize = 0;
        while p < r.len() && !name_less(x, &r[p])
            invariant
                p <= r.len(),
                forall|k: int| 0 <= k < p ==> !name_lt(x@, #[trigger] r@[k]@),
            decreases r.len() - p,
        {
            p = p + 1;
        }
        let ghost old_r = names_of(r@);
        proof {
            assert forall|k: int| 0 <= k < old_r.len() implies old_r[k] != x@ by {
                assert(names_of(r@).to_set().contains(old_r[k]));
                let m = choose|m: int| 0 <= m < i && (#[trigger] v@[m])@ == old_r[k];
                assert(v@[m]@ != v@[i as int]@);
            }
            assert forall|k: int| 0 <= k < p implies name_lt(old_r[k], x@) by {
                assert(old_r[k] == r@[k]@);
                lemma_name_lt_total(old_r[k], x@);
            }
            assert forall|k: int| p <= k < old_r.len() implies name_lt(x@, old_r[k]) by {
                assert(name_lt(x@, r@[p as int]@));
                if k > p {
                    lemma_name_lt_transitive(x@, old_r[p as int], old_r[k]);
                }
            }
        }
        r.insert(p, x.clone());
        proof {
            let nr = names_of(r@);
            assert(nr =~= old_r.insert(p as int, x@));
            assert forall|a: int, b: int| 0 <= a < b < nr.len() implies name_lt(#[trigger] nr[a], #[trigger] nr[b]) by {
                if b < p {
                } else if b == p {
                } else if a < p {
                    lemma_name_lt_transitive(old_r[a], x@, old_r[b - 1]);
                } else if a == p {
                } else {
                }
            }
            assert forall|n: Seq<char>| nr.to_set().contains(n) <==> exists|k: int|
                0 <= k < i + 1 && (#[trigger] v@[k])@ == n by {
                if nr.to_set().contains(n) {
                    let a = choose|a: int| 0 <= a < nr.len() && nr[a] == n;
                    if a < p {
                        assert(old_r.to_set().contains(old_r[a]));
                    } else if a > p {
                        assert(old_r.to_set().contains(old_r[a - 1]));
                    }
                }
                if exists|k: int| 0 <= k < i + 1 && (#[trigger] v@[k])@ == n {
                    let k = choose|k: int| 0 <= k < i + 1 && (#[trigger] v@[k])@ == n;
                    if k < i {
                        assert(old_r.to_set().contains(n));
                        let a = choose|a: int| 0 <= a < old_r.len() && old_r[a] == n;
                        if a < p {
                            assert(nr[a] == n);
                        } else {
                            assert(nr[a + 1] == n);
                        }
                    } else {
                        assert(nr[p as int] == n);
                    }
                }
            }
        }
        i = i + 1;
    }
    proof {
        let q = names_of(r@);
        assert(q.to_set() =~= name_set(v@));
        lemma_sorted_unique(q, sorted_names(name_set(v@)));
        assert forall|a: int, b: int| 0 <= a < b < r@.len() implies (#[trigger] r@[a])@ != (
        #[trigger] r@[b])@ by {
            assert(name_lt(q[a], q[b]));
            lemma_name_lt_irreflexive(q[a]);
        }
    }
    r
}

} // verus!
