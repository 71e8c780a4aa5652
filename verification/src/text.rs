//! Character-level helpers for the path and identifier strings that the
//! schema compiler manipulates: equality, concatenation, decimal rendering
//! of counters, and a string model of directory-relative path joining.

use vstd::prelude::*;
use vstd::string::StrSliceExecFns;
use vstd::string::StringExecFns;

verus! {

/// Relies on String::push: appends one character at the end.
#[verifier::external_body]
pub fn push_char(s: &mut String, c: char)
    ensures
        final(s)@ == old(s)@.push(c),
{
    s.push(c)
}

/// Character-wise equality of two string slices.
pub fn str_eq(a: &str, b: &str) -> (r: bool)
    ensures
        r == (a@ == b@),
{
    let n = a.unicode_len();
    if n != b.unicode_len() {
        return false;
    }
    let mut i: usize = 0;
    while i < n
        invariant
            0 <= i <= n,
            n == a@.len(),
            n == b@.len(),
            forall|j: int| 0 <= j < i ==> a@[j] == b@[j],
        decreases n - i,
    {
        if a.get_char(i) != b.get_char(i) {
            return false;
        }
        i = i + 1;
    }
    proof {
        assert(a@ =~= b@);
    }
    true
}

/// New string holding `a` followed by `b`.
pub fn str_concat(a: &str, b: &str) -> (r: String)
    ensures
        r@ == a@ + b@,
{
    let mut s = a.to_owned();
    s.append(b);
    s
}

/// The character for one decimal digit.
pub open spec fn dec_digit_char(d: nat) -> char {
    if d == 0 {
        '0'
    } else if d == 1 {
        '1'
    } else if d == 2 {
        '2'
    } else if d == 3 {
        '3'
    } else if d == 4 {
        '4'
    } else if d == 5 {
        '5'
    } else if d == 6 {
        '6'
    } else if d == 7 {
        '7'
    } else if d == 8 {
        '8'
    } else {
        '9'
    }
}

/// Decimal rendering of a natural number, most significant digit first.
pub open spec fn dec_str(n: nat) -> Seq<char>
    decreases n,
{
    if n < 10 {
        seq![dec_digit_char(n)]
    } else {
        dec_str(n / 10).push(dec_digit_char(n % 10))
    }
}

fn digit_char(d: u128) -> (c: char)
    requires
        d < 10,
    ensures
        c == dec_digit_char(d as nat),
{
    match d {
        0 => '0',
        1 => '1',
        2 => '2',
        3 => '3',
        4 => '4',
        5 => '5',
        6 => '6',
        7 => '7',
        8 => '8',
        _ => '9',
    }
}

/// Renders a counter in decimal.
pub fn u128_to_string(n: u128) -> (r: String)
    ensures
        r@ == dec_str(n as nat),
    decreases n,
{
    if n < 10 {
        let mut s = String::new();
        push_char(&mut s, digit_char(n));
        s
    } else {
        let mut s = u128_to_string(n / 10);
        push_char(&mut s, digit_char(n % 10));
        s
    }
}

proof fn lemma_dec_digit_char_injective(a: nat, b: nat)
    requires
        a < 10,
        b < 10,
        dec_digit_char(a) == dec_digit_char(b),
    ensures
        a == b,
{
}

/// A decimal rendering has at least one digit, and at least two
/// for numbers of two digits.
pub proof fn lemma_dec_str_len(n: nat)
    ensures
        dec_str(n).len() >= 1,
        n >= 10 ==> dec_str(n).len() >= 2,
    decreases n,
{
    if n >= 10 {
        lemma_dec_str_len(n / 10);
    }
}

/// Distinct numbers render to distinct decimal strings.
pub proof fn lemma_dec_str_injective(a: nat, b: nat)
    requires
        dec_str(a) == dec_str(b),
    ensures
        a == b,
    decreases a + b,
{
    lemma_dec_str_len(a);
    lemma_dec_str_len(b);
    if a < 10 && b < 10 {
        assert(dec_str(a)[0] == dec_digit_char(a));
        assert(dec_str(b)[0] == dec_digit_char(b));
        lemma_dec_digit_char_injective(a, b);
    } else if a < 10 {
        assert(dec_str(a).len() == 1);
        assert(dec_str(b).len() >= 2);
    } else if b < 10 {
        assert(dec_str(a).len() >= 2);
        assert(dec_str(b).len() == 1);
    } else {
        let sa = dec_str(a / 10);
        let sb = dec_str(b / 10);
        assert(sa.push(dec_digit_char(a % 10)) == sb.push(dec_digit_char(b % 10)));
        assert(sa.len() == sb.len());
        assert forall|i: int| 0 <= i < sa.len() implies sa[i] == sb[i] by {
            assert(sa.push(dec_digit_char(a % 10))[i] == sa[i]);
            assert(sb.push(dec_digit_char(b % 10))[i] == sb[i]);
        }
        assert(sa =~= sb);
        lemma_dec_str_injective(a / 10, b / 10);
        assert(dec_str(a).last() == dec_digit_char(a % 10));
        assert(dec_str(b).last() == dec_digit_char(b % 10));
        lemma_dec_digit_char_injective(a % 10, b % 10);
    }
}

/// Index of the last occurrence of `c` in `s`, or -1 when absent.
pub open spec fn last_index_of(s: Seq<char>, c: char) -> int
    decreases s.len(),
{
    if s.len() == 0 {
        -1
    } else if s[s.len() - 1] == c {
        s.len() - 1
    } else {
        last_index_of(s.drop_last(), c)
    }
}

pub proof fn lemma_last_index_of(s: Seq<char>, c: char)
    ensures
        -1 <= last_index_of(s, c) < s.len(),
        last_index_of(s, c) >= 0 ==> s[last_index_of(s, c)] == c,
        forall|j: int| last_index_of(s, c) < j < s.len() ==> s[j] != c,
    decreases s.len(),
{
    if s.len() > 0 && s[s.len() - 1] != c {
        lemma_last_index_of(s.drop_last(), c);
        assert(forall|j: int| 0 <= j < s.len() - 1 ==> s.drop_last()[j] == s[j]);
    }
}

/// Finds the last occurrence of `c` in `s`.
pub fn find_last_char(s: &str, c: char) -> (r: Option<usize>)
    ensures
        match r {
            Some(i) => i as int == last_index_of(s@, c),
            None => last_index_of(s@, c) == -1,
        },
{
    let n = s.unicode_len();
    proof {
        assert(s@.subrange(0, n as int) =~= s@);
    }
    let mut i: usize = n;
    while i > 0
        invariant
            0 <= i <= n,
            n == s@.len(),
            last_index_of(s@, c) == last_index_of(s@.subrange(0, i as int), c),
        decreases i,
    {
        let prev: usize = i - 1;
        let ch = s.get_char(prev);
        proof {
            assert(s@.subrange(0, i as int).drop_last() =~= s@.subrange(0, prev as int));
            assert(s@.subrange(0, i as int).last() == s@[prev as int]);
        }
        if ch == c {
            proof {
                assert(last_index_of(s@.subrange(0, i as int), c) == prev as int);
            }
            return Some(prev);
        }
        i = prev;
    }
    proof {
        assert(s@.subrange(0, 0) =~= Seq::<char>::empty());
    }
    None
}

/// Directory part of a path, in the manner of a Unix dirname:
/// `None` for the empty path and for the root, the prefix before the last
/// separator otherwise, with `Some("")` for a bare file name and `Some("/")`
/// directly under the root.
pub open spec fn parent_of(p: Seq<char>) -> Option<Seq<char>> {
    if p.len() == 0 || p =~= seq!['/'] {
        None
    } else {
        let li = last_index_of(p, '/');
        if li == -1 {
            Some(Seq::empty())
        } else if li == 0 {
            Some(seq!['/'])
        } else {
            Some(p.subrange(0, li))
        }
    }
}

/// Computes the directory part of a path string.
pub fn parent_dir(p: &str) -> (r: Option<String>)
    ensures
        match r {
            Some(d) => parent_of(p@) == Some(d@),
            None => parent_of(p@) is None,
        },
{
    let n = p.unicode_len();
    if n == 0 {
        return None;
    }
    if n == 1 && p.get_char(0) == '/' {
        proof {
            assert(p@ =~= seq!['/']);
        }
        return None;
    }
    proof {
        assert(!(p@ =~= seq!['/']));
    }
    match find_last_char(p, '/') {
        None => Some(String::new()),
        Some(0) => {
            let mut s = String::new();
            push_char(&mut s, '/');
            proof {
                assert(s@ =~= seq!['/']);
            }
            Some(s)
        },
        Some(li) => {
            proof {
                lemma_last_index_of(p@, '/');
            }
            Some(p.substring_char(0, li).to_owned())
        },
    }
}

/// Joining a reference's file part against a base directory: an absolute
/// part stands alone, an empty base contributes nothing, and otherwise a
/// single separator stands between the two.
pub open spec fn joined_path(base: Seq<char>, rel: Seq<char>) -> Seq<char> {
    if rel.len() > 0 && rel[0] == '/' {
        rel
    } else if base.len() == 0 {
        rel
    } else if base.last() == '/' {
        base + rel
    } else {
        base + seq!['/'] + rel
    }
}

/// Joins a relative path against a base directory.
pub fn join_path(base: &str, rel: &str) -> (r: String)
    ensures
        r@ == joined_path(base@, rel@),
{
    let rn = rel.unicode_len();
    if rn > 0 && rel.get_char(0) == '/' {
        return rel.to_owned();
    }
    let bn = base.unicode_len();
    if bn == 0 {
        return rel.to_owned();
    }
    if base.get_char(bn - 1) == '/' {
        str_concat(base, rel)
    } else {
        let mut s = base.to_owned();
        push_char(&mut s, '/');
        s.append(rel);
        proof {
            assert(s@ =~= base@ + seq!['/'] + rel@);
        }
        s
    }
}

/// Whether some string of the sequence reads `s`.
pub open spec fn seq_contains_str(v: Seq<String>, s: Seq<char>) -> bool {
    exists|i: int| 0 <= i < v.len() && v[i]@ == s
}

/// Membership test on a vector of strings.
pub fn vec_contains_string(v: &Vec<String>, s: &String) -> (r: bool)
    ensures
        r == seq_contains_str(v@, s@),
{
    let mut i: usize = 0;
    while i < v.len()
        invariant
            0 <= i <= v@.len(),
            forall|j: int| 0 <= j < i ==> v@[j]@ != s@,
        decreases v@.len() - i,
    {
        if v[i].eq(s) {
            return true;
        }
        i = i + 1;
    }
    false
}


/// Index of the first occurrence of `c` in `s`, or -1 when absent.
pub open spec fn first_index_of(s: Seq<char>, c: char) -> int
    decreases s.len(),
{
    if s.len() == 0 {
        -1
    } else if s[0] == c {
        0
    } else {
        let r = first_index_of(s.drop_first(), c);
        if r == -1 {
            -1
        } else {
            r + 1
        }
    }
}

pub proof fn lemma_first_index_of(s: Seq<char>, c: char)
    ensures
        -1 <= first_index_of(s, c) < s.len(),
        first_index_of(s, c) >= 0 ==> s[first_index_of(s, c)] == c,
        forall|j: int| 0 <= j < first_index_of(s, c) ==> s[j] != c,
        first_index_of(s, c) == -1 ==> forall|j: int| 0 <= j < s.len() ==> s[j] != c,
    decreases s.len(),
{
    if s.len() > 0 && s[0] != c {
        lemma_first_index_of(s.drop_first(), c);
        assert forall|j: int| 0 <= j < first_index_of(s, c) implies s[j] != c by {
            if j > 0 {
                assert(s.drop_first()[j - 1] == s[j]);
            }
        }
        if first_index_of(s, c) == -1 {
            assert forall|j: int| 0 <= j < s.len() implies s[j] != c by {
                if j > 0 {
                    assert(s.drop_first()[j - 1] == s[j]);
                }
            }
        }
    }
}

/// The first occurrence is whatever index carries `c` with none before it.
pub proof fn lemma_first_index_char(s: Seq<char>, c: char, i: int)
    requires
        0 <= i < s.len(),
        s[i] == c,
        forall|j: int| 0 <= j < i ==> s[j] != c,
    ensures
        first_index_of(s, c) == i,
    decreases s.len(),
{
    if s[0] != c {
        assert(forall|j: int| 0 <= j < s.len() - 1 ==> s.drop_first()[j] == s[j + 1]);
        lemma_first_index_char(s.drop_first(), c, i - 1);
    }
}

/// Finds the first occurrence of `c` in `s`.
pub fn find_first_char(s: &str, c: char) -> (r: Option<usize>)
    ensures
        match r {
            Some(i) => i as int == first_index_of(s@, c),
            None => first_index_of(s@, c) == -1,
        },
{
    let n = s.unicode_len();
    let mut i: usize = 0;
    while i < n
        invariant
            0 <= i <= n,
            n == s@.len(),
            forall|j: int| 0 <= j < i ==> s@[j] != c,
        decreases n - i,
    {
        if s.get_char(i) == c {
            proof {
                lemma_first_index_char(s@, c, i as int);
            }
            return Some(i);
        }
        i = i + 1;
    }
    proof {
        lemma_first_index_of(s@, c);
        if first_index_of(s@, c) >= 0 {
            assert(s@[first_index_of(s@, c)] == c);
        }
    }
    None
}

/// The non-empty parts of `s` between occurrences of the separator `c`.
pub open spec fn split_parts(s: Seq<char>, c: char) -> Seq<Seq<char>>
    decreases s.len(),
    via split_parts_decreases
{
    if s.len() == 0 {
        Seq::empty()
    } else {
        let i = first_index_of(s, c);
        if i == -1 {
            seq![s]
        } else if i == 0 {
            split_parts(s.drop_first(), c)
        } else {
            seq![s.subrange(0, i)] + split_parts(s.subrange(i + 1, s.len() as int), c)
        }
    }
}

#[via_fn]
proof fn split_parts_decreases(s: Seq<char>, c: char) {
    lemma_first_index_of(s, c);
}

/// Splits `s` at the separator, dropping empty parts.
pub fn split_string(s: &str, c: char) -> (r: Vec<String>)
    ensures
        crate::schema::strings_v(r@) == split_parts(s@, c),
    decreases s@.len(),
{
    let n = s.unicode_len();
    if n == 0 {
        let r: Vec<String> = Vec::new();
        proof {
            assert(crate::schema::strings_v(r@) =~= split_parts(s@, c));
        }
        return r;
    }
    proof {
        lemma_first_index_of(s@, c);
    }
    match find_first_char(s, c) {
        None => {
            let mut r: Vec<String> = Vec::new();
            r.push(s.to_owned());
            proof {
                assert(crate::schema::strings_v(r@) =~= seq![s@]);
            }
            r
        },
        Some(0) => {
            let rest = s.substring_char(1, n);
            proof {
                assert(rest@ =~= s@.drop_first());
            }
            split_string(rest, c)
        },
        Some(i) => {
            let head = s.substring_char(0, i).to_owned();
            let tail = s.substring_char(i + 1, n);
            proof {
                assert(tail@ =~= s@.subrange(i as int + 1, s@.len() as int));
            }
            let mut rest = split_string(tail, c);
            let ghost rest0 = rest@;
            let ghost restv = crate::schema::strings_v(rest@);
            let mut r: Vec<String> = Vec::new();
            r.push(head);
            r.append(&mut rest);
            proof {
                assert forall|j: int| 0 <= j < r@.len() implies crate::schema::strings_v(r@)[j]
                    == (seq![s@.subrange(0, i as int)] + restv)[j] by {
                    if j > 0 {
                        assert(r@[j] == rest0[j - 1]);
                        assert(restv[j - 1] == rest0[j - 1]@);
                    }
                }
                assert(crate::schema::strings_v(r@) =~= seq![s@.subrange(0, i as int)] + restv);
            }
            r
        },
    }
}
} // verus!
