//! Text as sequences of characters: order, prefixes, substrings and decimal numerals.

use crate::order::int_order;
use crate::order::Precedence;
use vstd::prelude::*;
use vstd::std_specs::iter::IteratorSpec;
use vstd::string::StringExecFns;

verus! {

/// The first position from `from` on at which `a` and `b` do not hold the same character,
/// because they differ there or because one of them has ended.
pub open spec fn first_difference_from(a: Seq<char>, b: Seq<char>, from: int) -> int
    decreases a.len() - from,
{
    if 0 <= from < a.len() && from < b.len() && a[from] == b[from] {
        first_difference_from(a, b, from + 1)
    } else {
        from
    }
}

/// The length of the longest common prefix of `a` and `b`.
pub open spec fn first_difference(a: Seq<char>, b: Seq<char>) -> int {
    first_difference_from(a, b, 0)
}

/// How two texts stand in the lexicographic order by code point: the first position at
/// which they differ decides, and a text comes before each of its proper extensions.
pub open spec fn text_order(a: Seq<char>, b: Seq<char>) -> Precedence {
    let k = first_difference(a, b);
    if k >= a.len() {
        if k >= b.len() {
            Precedence::Same
        } else {
            Precedence::Before
        }
    } else if k >= b.len() {
        Precedence::After
    } else {
        int_order(a[k] as u32 as int, b[k] as u32 as int)
    }
}

/// `p` is the start of `s`.
pub open spec fn has_prefix(s: Seq<char>, p: Seq<char>) -> bool {
    p.len() <= s.len() && s.subrange(0, p.len() as int) == p
}

/// `p` occurs in `s` at position `at`.
pub open spec fn occurs_at(s: Seq<char>, p: Seq<char>, at: int) -> bool {
    0 <= at && at + p.len() <= s.len() && s.subrange(at, at + p.len()) == p
}

/// `p` occurs somewhere in `s`.
pub open spec fn has_substring(s: Seq<char>, p: Seq<char>) -> bool {
    exists|at: int| occurs_at(s, p, at)
}

/// The character that stands for a digit below ten.
pub open spec fn digit_char(d: int) -> char {
    if d == 0 {
        '0'
    } else if d == 1 {
        '1'
    } else if d == 2 {
        '2'
    } else if d == 3 {
        '3'
    } else if d == 4 {
        '4'
    } else if d == 5 {
        '5'
    } else if d == 6 {
        '6'
    } else if d == 7 {
        '7'
    } else if d == 8 {
        '8'
    } else {
        '9'
    }
}

/// The decimal numeral of `n`, without leading zeros.
pub open spec fn decimal(n: nat) -> Seq<char>
    decreases n,
{
    if n < 10 {
        seq![digit_char(n as int)]
    } else {
        decimal(n / 10).push(digit_char((n % 10) as int))
    }
}

/// Where `first_difference_from` stops, the texts agree on everything between `from` and
/// that position, and do not agree at it.
pub proof fn lemma_first_difference_from(a: Seq<char>, b: Seq<char>, from: int)
    requires
        0 <= from <= a.len(),
        from <= b.len(),
    ensures
        from <= first_difference_from(a, b, from) <= a.len(),
        first_difference_from(a, b, from) <= b.len(),
        forall|j: int| from <= j < first_difference_from(a, b, from) ==> a[j] == b[j],
        first_difference_from(a, b, from) < a.len() && first_difference_from(a, b, from) < b.len()
            ==> a[first_difference_from(a, b, from)] != b[first_difference_from(a, b, from)],
    decreases a.len() - from,
{
    if from < a.len() && from < b.len() && a[from] == b[from] {
        lemma_first_difference_from(a, b, from + 1);
    }
}

/// The first difference is the only position up to which two texts agree and at which
/// they do not.
pub proof fn lemma_first_difference_is(a: Seq<char>, b: Seq<char>, k: int)
    requires
        0 <= k <= a.len(),
        k <= b.len(),
        forall|j: int| 0 <= j < k ==> a[j] == b[j],
        k < a.len() && k < b.len() ==> a[k] != b[k],
    ensures
        first_difference(a, b) == k,
{
    lemma_first_difference_from(a, b, 0);
    let d = first_difference(a, b);
    if d < k {
        assert(a[d] == b[d]);
    } else if k < d {
        assert(a[k] == b[k]);
    }
}

/// Characters that differ have code points that differ.
pub proof fn lemma_code_points_differ(c: char, d: char)
    ensures
        c as u32 == d as u32 ==> c == d,
{
    vstd::utf8::char_u32_cast(c, c as u32);
    vstd::utf8::char_u32_cast(d, d as u32);
}

/// Two texts stand as `Same` exactly when they are the same text, and taking them the
/// other way round flips their order.
pub proof fn lemma_text_order_flip(a: Seq<char>, b: Seq<char>)
    ensures
        text_order(b, a) == text_order(a, b).flip(),
        text_order(a, b) == Precedence::Same <==> a == b,
{
    lemma_first_difference_from(a, b, 0);
    let k = first_difference(a, b);
    lemma_first_difference_is(b, a, k);
    if k < a.len() && k < b.len() {
        lemma_code_points_differ(a[k], b[k]);
    }
    if text_order(a, b) == Precedence::Same {
        assert(a =~= b);
    }
}

/// The lexicographic order is transitive, also where one of the two steps is an equality.
pub proof fn lemma_text_order_transitive(a: Seq<char>, b: Seq<char>, c: Seq<char>)
    requires
        text_order(a, b) != Precedence::After,
        text_order(b, c) != Precedence::After,
    ensures
        text_order(a, c) != Precedence::After,
        text_order(a, c) == Precedence::Same ==> text_order(a, b) == Precedence::Same && text_order(
            b,
            c,
        ) == Precedence::Same,
{
    lemma_first_difference_from(a, b, 0);
    lemma_first_difference_from(b, c, 0);
    lemma_text_order_flip(a, b);
    lemma_text_order_flip(b, c);
    lemma_text_order_flip(a, c);
    let k1 = first_difference(a, b);
    let k2 = first_difference(b, c);
    if a == b || b == c {
    } else {
        let k = if k1 <= k2 {
            k1
        } else {
            k2
        };
        assert forall|j: int| 0 <= j < k implies a[j] == c[j] by {
            assert(a[j] == b[j]);
            assert(b[j] == c[j]);
        }
        lemma_first_difference_is(a, c, k);
    }
}

/// The characters of a text, one by one.
pub fn chars_of(s: &str) -> (v: Vec<char>)
    ensures
        v@ == s@,
{
    broadcast use vstd::string::group_string_axioms;

    let mut v: Vec<char> = Vec::new();
    for c in it: s.chars()
        invariant
            it.seq() == s@,
            v@ == it.seq().take(it.index() as int),
    {
        v.push(c);
    }
    v
}

/// Compares two texts, given by their characters, in the lexicographic order.
pub fn order_chars(a: &Vec<char>, b: &Vec<char>) -> (r: Precedence)
    ensures
        r == text_order(a@, b@),
{
    let mut i: usize = 0;
    while i < a.len() && i < b.len() && a[i] == b[i]
        invariant
            i <= a.len(),
            i <= b.len(),
            forall|j: int| 0 <= j < i ==> a@[j] == b@[j],
        decreases a.len() - i,
    {
        i += 1;
    }
    proof {
        lemma_first_difference_is(a@, b@, i as int);
    }
    if i >= a.len() {
        if i >= b.len() {
            Precedence::Same
        } else {
            Precedence::Before
        }
    } else if i >= b.len() {
        Precedence::After
    } else {
        let ca: char = a[i];
        let cb: char = b[i];
        proof {
            lemma_code_points_differ(ca, cb);
        }
        if (ca as u32) < (cb as u32) {
            Precedence::Before
        } else {
            Precedence::After
        }
    }
}

/// Compares two texts in the lexicographic order by code point.
pub fn order_text(a: &str, b: &str) -> (r: Precedence)
    ensures
        r == text_order(a@, b@),
{
    let ca = chars_of(a);
    let cb = chars_of(b);
    order_chars(&ca, &cb)
}

/// Tells whether two texts are the same.
pub fn same_text(a: &str, b: &str) -> (r: bool)
    ensures
        r == (a@ == b@),
{
    let ca = chars_of(a);
    let cb = chars_of(b);
    proof {
        lemma_text_order_flip(a@, b@);
    }
    order_chars(&ca, &cb) == Precedence::Same
}

/// Tells whether `p` occurs in `s` at position `at`.
fn chars_occur_at(s: &Vec<char>, p: &Vec<char>, at: usize) -> (r: bool)
    requires
        at + p.len() <= s.len(),
    ensures
        r == occurs_at(s@, p@, at as int),
{
    let mut j: usize = 0;
    while j < p.len()
        invariant
            j <= p.len(),
            at + p.len() <= s.len(),
            forall|i: int| 0 <= i < j ==> s@[at + i] == p@[i],
        decreases p.len() - j,
    {
        if s[at + j] != p[j] {
            proof {
                let sub = s@.subrange(at as int, at + p.len());
                assert(sub[j as int] == s@[at + j]);
            }
            return false;
        }
        j += 1;
    }
    proof {
        assert(s@.subrange(at as int, at + p.len()) =~= p@);
    }
    true
}

/// Tells whether `s` starts with `p`.
pub fn starts_with(s: &str, p: &str) -> (r: bool)
    ensures
        r == has_prefix(s@, p@),
{
    let cs = chars_of(s);
    let cp = chars_of(p);
    if cp.len() > cs.len() {
        return false;
    }
    chars_occur_at(&cs, &cp, 0)
}

/// Tells whether `p` occurs in `s`.
pub fn contains(s: &str, p: &str) -> (r: bool)
    ensures
        r == has_substring(s@, p@),
{
    let cs = chars_of(s);
    let cp = chars_of(p);
    if cp.len() > cs.len() {
        return false;
    }
    let last: usize = cs.len() - cp.len();
    let mut at: usize = 0;
    while at <= last
        invariant
            at <= last,
            last == cs.len() - cp.len(),
            cp.len() <= cs.len(),
            cs@ == s@,
            cp@ == p@,
            forall|i: int| 0 <= i < at ==> !occurs_at(s@, p@, i),
        decreases last - at,
    {
        if chars_occur_at(&cs, &cp, at) {
            return true;
        }
        if at == last {
            return false;
        }
        at += 1;
    }
    false
}

/// The numeral of one digit.
fn digit_str(d: u64) -> (s: &'static str)
    requires
        d < 10,
    ensures
        s@ == seq![digit_char(d as int)],
{
    proof {
        reveal_strlit("0");
        reveal_strlit("1");
        reveal_strlit("2");
        reveal_strlit("3");
        reveal_strlit("4");
        reveal_strlit("5");
        reveal_strlit("6");
        reveal_strlit("7");
        reveal_strlit("8");
        reveal_strlit("9");
    }
    let s = if d == 0 {
        "0"
    } else if d == 1 {
        "1"
    } else if d == 2 {
        "2"
    } else if d == 3 {
        "3"
    } else if d == 4 {
        "4"
    } else if d == 5 {
        "5"
    } else if d == 6 {
        "6"
    } else if d == 7 {
        "7"
    } else if d == 8 {
        "8"
    } else {
        "9"
    };
    assert(s@ =~= seq![digit_char(d as int)]);
    s
}

/// Writes `n` as a decimal numeral.
pub fn decimal_string(n: u64) -> (s: String)
    ensures
        s@ == decimal(n as nat),
    decreases n,
{
    if n < 10 {
        String::from_str(digit_str(n))
    } else {
        let mut s = decimal_string(n / 10);
        s.append(digit_str(n % 10));
        s
    }
}

} // verus!
