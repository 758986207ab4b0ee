//! Path and file-name logic: the final component of a path, joining a
//! directory with a name, and the `stem_N.ext` names tried when a file of
//! the same name already exists in the destination.
use vstd::prelude::*;

verus! {

/// The highest counter tried when searching for a free `stem_N.ext` name.
pub const MAX_RENAME_COUNTER: u32 = 9999;

// ---------------------------------------------------------------------------
// Specification
// ---------------------------------------------------------------------------

/// The characters after the last `/` of `p` (all of `p` when it has none).
pub open spec fn last_segment(p: Seq<char>) -> Seq<char>
    decreases p.len(),
{
    if p.len() == 0 {
        p
    } else if p.last() == '/' {
        Seq::empty()
    } else {
        last_segment(p.drop_last()).push(p.last())
    }
}

/// The final component of a Unix path: trailing `/` and `.` components are
/// ignored, and a path that ends in `..` (or has no component at all, such as
/// `""`, `"/"` or `"."`) has none.
pub open spec fn file_name_of(p: Seq<char>) -> Option<Seq<char>>
    decreases p.len(),
{
    if p.len() == 0 {
        None
    } else if p.last() == '/' {
        file_name_of(p.drop_last())
    } else if last_segment(p) == seq!['.'] {
        file_name_of(p.drop_last())
    } else if last_segment(p) == seq!['.', '.'] {
        None
    } else {
        Some(last_segment(p))
    }
}

/// `dir` joined with `name`: an absolute `name` replaces `dir`; otherwise a
/// `/` is put between them unless `dir` is empty or already ends in one.
pub open spec fn joined(dir: Seq<char>, name: Seq<char>) -> Seq<char> {
    if name.len() > 0 && name[0] == '/' {
        name
    } else if dir.len() == 0 || dir.last() == '/' {
        dir + name
    } else {
        dir + seq!['/'] + name
    }
}

/// Index of the last `.` in `s`, or -1 when there is none.
pub open spec fn last_dot(s: Seq<char>) -> int
    decreases s.len(),
{
    if s.len() == 0 {
        -1
    } else if s.last() == '.' {
        s.len() - 1
    } else {
        last_dot(s.drop_last())
    }
}

/// The part of a file name before its last `.` (the whole name without one).
pub open spec fn stem_of(s: Seq<char>) -> Seq<char> {
    if last_dot(s) < 0 {
        s
    } else {
        s.subrange(0, last_dot(s))
    }
}

/// The part of a file name from its last `.` on (empty without one).
pub open spec fn ext_of(s: Seq<char>) -> Seq<char> {
    if last_dot(s) < 0 {
        Seq::empty()
    } else {
        s.subrange(last_dot(s), s.len() as int)
    }
}

/// The ASCII digit for `d < 10`.
pub open spec fn digit_char(d: nat) -> char {
    if d == 0 {
        '0'
    } else if d == 1 {
        '1'
    } else if d == 2 {
        '2'
    } else if d == 3 {
        '3'
    } else if d == 4 {
        '4'
    } else if d == 5 {
        '5'
    } else if d == 6 {
        '6'
    } else if d == 7 {
        '7'
    } else if d == 8 {
        '8'
    } else {
        '9'
    }
}

/// The decimal notation of `n`, without leading zeros.
pub open spec fn decimal(n: nat) -> Seq<char>
    decreases n,
{
    if n < 10 {
        seq![digit_char(n)]
    } else {
        decimal(n / 10).push(digit_char(n % 10))
    }
}

/// The `k`-th alternative name for `name`: `stem_k.ext`.
pub open spec fn candidate(name: Seq<char>, k: nat) -> Seq<char> {
    stem_of(name) + seq!['_'] + decimal(k) + ext_of(name)
}

// ---------------------------------------------------------------------------
// Lemmas
// ---------------------------------------------------------------------------

proof fn lemma_last_segment_split(p: Seq<char>, i: int)
    requires
        0 <= i <= p.len(),
        forall|j: int| i <= j < p.len() ==> p[j] != '/',
    ensures
        last_segment(p) == last_segment(p.subrange(0, i)) + p.subrange(i, p.len() as int),
    decreases p.len() - i,
{
    if i == p.len() {
        assert(p.subrange(0, i) =~= p);
        assert(p.subrange(i, p.len() as int) =~= Seq::<char>::empty());
        assert(last_segment(p) + Seq::<char>::empty() =~= last_segment(p));
    } else {
        let q = p.drop_last();
        lemma_last_segment_split(q, i);
        assert(q.subrange(0, i) =~= p.subrange(0, i));
        assert(q.subrange(i, q.len() as int).push(p.last()) =~= p.subrange(i, p.len() as int));
        assert((last_segment(q.subrange(0, i)) + q.subrange(i, q.len() as int)).push(p.last())
            =~= last_segment(p.subrange(0, i)) + p.subrange(i, p.len() as int));
    }
}

proof fn lemma_last_dot_range(s: Seq<char>)
    ensures
        -1 <= last_dot(s) < s.len(),
        last_dot(s) >= 0 ==> s[last_dot(s)] == '.',
        forall|j: int| last_dot(s) < j < s.len() ==> s[j] != '.',
    decreases s.len(),
{
    if s.len() > 0 && s.last() != '.' {
        let q = s.drop_last();
        lemma_last_dot_range(q);
        assert forall|j: int| last_dot(s) < j < s.len() implies s[j] != '.' by {
            if j < s.len() - 1 {
                assert(s[j] == q[j]);
            }
        }
    }
}

/// A decimal numeral is never empty and is made of ASCII digits.
pub proof fn lemma_decimal_digits(n: nat)
    ensures
        decimal(n).len() >= 1,
        n >= 10 ==> decimal(n).len() >= 2,
        forall|i: int|
            0 <= i < decimal(n).len() ==> '0' <= #[trigger] decimal(n)[i] && decimal(n)[i] <= '9',
    decreases n,
{
    if n >= 10 {
        lemma_decimal_digits(n / 10);
    }
}

/// Distinct numbers have distinct decimal numerals.
pub proof fn lemma_decimal_injective(a: nat, b: nat)
    requires
        decimal(a) == decimal(b),
    ensures
        a == b,
    decreases a,
{
    lemma_decimal_digits(a);
    lemma_decimal_digits(b);
    if a < 10 && b < 10 {
        assert(decimal(a)[0] == digit_char(a));
        assert(decimal(b)[0] == digit_char(b));
    } else if a >= 10 && b >= 10 {
        assert(decimal(a) == decimal(a / 10).push(digit_char(a % 10)));
        assert(decimal(b) == decimal(b / 10).push(digit_char(b % 10)));
        assert(decimal(a).last() == digit_char(a % 10));
        assert(decimal(b).last() == digit_char(b % 10));
        assert(decimal(a / 10) =~= decimal(a).drop_last());
        assert(decimal(b / 10) =~= decimal(b).drop_last());
        lemma_decimal_injective(a / 10, b / 10);
        assert(digit_char(a % 10) == digit_char(b % 10));
        assert(a % 10 == b % 10);
    }
}

/// The stem and the extension together give back the name, the extension is
/// empty exactly when the name has no `.`, and otherwise it starts with the
/// name's last `.` and holds no other.
pub proof fn law_split_name(name: Seq<char>)
    ensures
        stem_of(name) + ext_of(name) == name,
        ext_of(name).len() == 0 <==> (forall|j: int| 0 <= j < name.len() ==> name[j] != '.'),
        ext_of(name).len() > 0 ==> ext_of(name)[0] == '.',
        forall|j: int| 0 < j < ext_of(name).len() ==> ext_of(name)[j] != '.',
{
    lemma_last_dot_range(name);
    if last_dot(name) < 0 {
        assert(stem_of(name) + ext_of(name) =~= name);
    } else {
        assert(stem_of(name) + ext_of(name) =~= name);
        assert(ext_of(name)[0] == name[last_dot(name)]);
        assert forall|j: int| 0 < j < ext_of(name).len() implies ext_of(name)[j] != '.' by {
            assert(ext_of(name)[j] == name[last_dot(name) + j]);
        }
    }
}

/// A renamed file never gets the name it had, and different counters give
/// different names.
pub proof fn law_candidates_distinct(name: Seq<char>, j: nat, k: nat)
    ensures
        candidate(name, k) != name,
        j != k ==> candidate(name, j) != candidate(name, k),
{
    law_split_name(name);
    lemma_decimal_digits(k);
    assert(candidate(name, k).len() == name.len() + 1 + decimal(k).len());
    if j != k && candidate(name, j) == candidate(name, k) {
        let s: int = stem_of(name).len() as int + 1;
        let cj = candidate(name, j);
        let ck = candidate(name, k);
        assert(decimal(j).len() == decimal(k).len());
        assert(cj.subrange(s, s + decimal(j).len() as int) =~= decimal(j));
        assert(ck.subrange(s, s + decimal(k).len() as int) =~= decimal(k));
        lemma_decimal_injective(j, k);
    }
}

/// A name that can stand as the last component of a path: not empty, with
/// no `/`, and neither `.` nor `..`.
pub open spec fn is_plain_name(s: Seq<char>) -> bool {
    &&& s.len() > 0
    &&& forall|j: int| 0 <= j < s.len() ==> s[j] != '/'
    &&& s != seq!['.']
    &&& s != seq!['.', '.']
}

/// The value of a sequence of ASCII digits read in base ten.
pub open spec fn digits_value(s: Seq<char>) -> nat
    decreases s.len(),
{
    if s.len() == 0 {
        0
    } else {
        digits_value(s.drop_last()) * 10 + digit_value(s.last())
    }
}

/// The value of an ASCII digit (0 for any other character).
pub open spec fn digit_value(c: char) -> nat {
    if c == '1' {
        1
    } else if c == '2' {
        2
    } else if c == '3' {
        3
    } else if c == '4' {
        4
    } else if c == '5' {
        5
    } else if c == '6' {
        6
    } else if c == '7' {
        7
    } else if c == '8' {
        8
    } else if c == '9' {
        9
    } else {
        0
    }
}

proof fn lemma_plain_after_separator(q: Seq<char>, seg: Seq<char>)
    requires
        q.len() == 0 || q.last() == '/',
        is_plain_name(seg),
    ensures
        last_segment(q + seg) == seg,
        file_name_of(q + seg) == Some(seg),
{
    let p = q + seg;
    lemma_last_segment_split(p, q.len() as int);
    assert(p.subrange(0, q.len() as int) =~= q);
    assert(p.subrange(q.len() as int, p.len() as int) =~= seg);
    assert(last_segment(q) =~= Seq::<char>::empty());
    assert(Seq::<char>::empty() + seg =~= seg);
    assert(p.last() == seg[seg.len() - 1]);
}

/// The file name of a path is its last component, unchanged (a leading `.`
/// included): for a plain name `s`, both `s` and `d/s` have file name `s`.
pub proof fn law_file_name_is_last_component(d: Seq<char>, s: Seq<char>)
    requires
        is_plain_name(s),
    ensures
        file_name_of(d + seq!['/'] + s) == Some(s),
        file_name_of(s) == Some(s),
{
    lemma_plain_after_separator(d + seq!['/'], s);
    lemma_plain_after_separator(Seq::empty(), s);
    assert(Seq::<char>::empty() + s =~= s);
}

/// Trailing separators do not change the file name, and a path ending in
/// `..` has none.
pub proof fn law_file_name_trailing(p: Seq<char>)
    ensures
        file_name_of(p.push('/')) == file_name_of(p),
        file_name_of(p + seq!['/', '.', '.']) is None,
{
    assert(p.push('/').drop_last() =~= p);
    let q = p + seq!['/', '.', '.'];
    lemma_last_segment_split(q, p.len() as int + 1);
    assert(q.subrange(0, p.len() as int + 1) =~= p.push('/'));
    assert(last_segment(p.push('/')) =~= Seq::<char>::empty());
    assert(q.subrange(p.len() as int + 1, q.len() as int) =~= seq!['.', '.']);
    assert(Seq::<char>::empty() + seq!['.', '.'] =~= seq!['.', '.']);
    assert(q.last() == '.');
}

/// Joining a directory and a plain name gives a path that starts with the
/// directory, ends with the name, and whose file name is that name.
pub proof fn law_join_then_file_name(d: Seq<char>, n: Seq<char>)
    requires
        is_plain_name(n),
    ensures
        file_name_of(joined(d, n)) == Some(n),
        joined(d, n).subrange(0, d.len() as int) == d,
        joined(d, n).subrange(joined(d, n).len() - n.len(), joined(d, n).len() as int) == n,
        joined(d, n).len() == d.len() + n.len() + if d.len() == 0 || d.last() == '/' {
            0int
        } else {
            1int
        },
{
    assert(n[0] != '/');
    if d.len() == 0 || d.last() == '/' {
        lemma_plain_after_separator(d, n);
        assert((d + n).subrange(0, d.len() as int) =~= d);
        assert((d + n).subrange(d.len() as int, (d + n).len() as int) =~= n);
    } else {
        lemma_plain_after_separator(d + seq!['/'], n);
        assert((d + seq!['/'] + n).subrange(0, d.len() as int) =~= d);
        assert((d + seq!['/'] + n).subrange(d.len() as int + 1, (d + seq!['/'] + n).len() as int) =~= n);
    }
}

proof fn lemma_digit_value(d: nat)
    requires
        d < 10,
    ensures
        digit_value(digit_char(d)) == d,
{
}

/// Reading the decimal numeral of `n` back gives `n`.
pub proof fn law_decimal_roundtrip(n: nat)
    ensures
        digits_value(decimal(n)) == n,
    decreases n,
{
    lemma_digit_value(n % 10);
    let s = decimal(n);
    if n < 10 {
        assert(s.drop_last() =~= Seq::<char>::empty());
        assert(s.last() == digit_char(n));
        assert(digits_value(s) == digits_value(s.drop_last()) * 10 + digit_value(s.last()));
    } else {
        law_decimal_roundtrip(n / 10);
        assert(s.drop_last() =~= decimal(n / 10));
        assert(s.last() == digit_char(n % 10));
        assert(digits_value(s) == digits_value(s.drop_last()) * 10 + digit_value(s.last()));
        assert((n / 10) * 10 + n % 10 == n) by (nonlinear_arith);
    }
}

/// Decimal numerals have no leading zero: `0` is written `0`, and any other
/// number starts with a digit other than `0`.
pub proof fn law_decimal_no_leading_zero(n: nat)
    ensures
        decimal(0) == seq!['0'],
        n > 0 ==> decimal(n)[0] != '0',
    decreases n,
{
    lemma_decimal_digits(n);
    if n >= 10 {
        law_decimal_no_leading_zero(n / 10);
        lemma_decimal_digits(n / 10);
        assert(decimal(n)[0] == decimal(n / 10)[0]);
    }
}

/// An absolute name replaces the directory it is joined to.
pub proof fn law_join_absolute(d: Seq<char>, n: Seq<char>)
    requires
        n.len() > 0,
        n[0] == '/',
    ensures
        joined(d, n) == n,
{
}

/// The `k`-th alternative name is the stem, then `_`, then the decimal
/// numeral of `k`, then the extension: `photo.jpg` gives `photo_3.jpg`.
pub proof fn law_candidate_shape(name: Seq<char>, k: nat)
    ensures
        ({
            let c = candidate(name, k);
            let st = stem_of(name);
            let e = ext_of(name);
            let d = decimal(k);
            &&& c.len() == name.len() + 1 + d.len()
            &&& c.subrange(0, st.len() as int) == st
            &&& c[st.len() as int] == '_'
            &&& digits_value(c.subrange(st.len() as int + 1, st.len() as int + 1 + d.len() as int)) == k
            &&& c.subrange(c.len() - e.len(), c.len() as int) == e
        }),
{
    law_split_name(name);
    law_decimal_roundtrip(k);
    let c = candidate(name, k);
    let st = stem_of(name);
    let e = ext_of(name);
    let d = decimal(k);
    assert(c.subrange(0, st.len() as int) =~= st);
    assert(c.subrange(st.len() as int + 1, st.len() as int + 1 + d.len() as int) =~= d);
    assert(c.subrange(c.len() - e.len(), c.len() as int) =~= e);
}

// ---------------------------------------------------------------------------
// Executable functions
// ---------------------------------------------------------------------------

/// The characters of `s`, one by one.
fn chars_of(s: &str) -> (v: Vec<char>)
    ensures
        v@ == s@,
{
    let n = s.unicode_len();
    let mut v: Vec<char> = Vec::new();
    let mut i: usize = 0;
    while i < n
        invariant
            n == s@.len(),
            i <= n,
            v@ == s@.subrange(0, i as int),
        decreases n - i,
    {
        let c = s.get_char(i);
        v.push(c);
        i = i + 1;
        assert(v@ =~= s@.subrange(0, i as int));
    }
    assert(v@ =~= s@);
    v
}

/// Index just after the last `/` before `end` (0 when there is none).
fn segment_start(v: &Vec<char>, end: usize) -> (start: usize)
    requires
        end <= v.len(),
    ensures
        start <= end,
        v@.subrange(start as int, end as int) == last_segment(v@.subrange(0, end as int)),
{
    let mut i = end;
    while i > 0 && v[i - 1] != '/'
        invariant
            i <= end <= v.len(),
            forall|j: int| i <= j < end ==> v@[j] != '/',
        decreases i,
    {
        i = i - 1;
    }
    let ghost p = v@.subrange(0, end as int);
    proof {
        lemma_last_segment_split(p, i as int);
        assert(p.subrange(i as int, end as int) =~= v@.subrange(i as int, end as int));
        let q = p.subrange(0, i as int);
        if i > 0 {
            assert(q.last() == '/');
        }
        assert(last_segment(q) =~= Seq::<char>::empty());
        assert(last_segment(q) + v@.subrange(i as int, end as int) =~= v@.subrange(
            i as int,
            end as int,
        ));
    }
    i
}

/// The final component of `path` (see [`file_name_of`]); `None` when the
/// path ends in `..` or has no component.
pub fn file_name(path: &str) -> (res: Option<String>)
    ensures
        match res {
            Some(s) => file_name_of(path@) == Some(s@),
            None => file_name_of(path@) is None,
        },
{
    let v = chars_of(path);
    let mut end = v.len();
    assert(v@.subrange(0, end as int) =~= path@);
    loop
        invariant
            end <= v.len(),
            v@ == path@,
            file_name_of(v@.subrange(0, end as int)) == file_name_of(path@),
        decreases end,
    {
        if end == 0 {
            return None;
        }
        let ghost p = v@.subrange(0, end as int);
        assert(p.drop_last() =~= v@.subrange(0, end - 1));
        if v[end - 1] == '/' {
            end = end - 1;
        } else {
            let start = segment_start(&v, end);
            assert(p.last() == v@[end - 1]);
            if end - start == 1 && v[start] == '.' {
                assert(last_segment(p) =~= seq!['.']);
                end = end - 1;
            } else if end - start == 2 && v[start] == '.' && v[start + 1] == '.' {
                assert(last_segment(p) =~= seq!['.', '.']);
                return None;
            } else {
                proof {
                    let seg = v@.subrange(start as int, end as int);
                    let dot1: Seq<char> = seq!['.'];
                    let dot2: Seq<char> = seq!['.', '.'];
                    assert(dot1[0] == '.');
                    assert(dot2[0] == '.' && dot2[1] == '.');
                    assert(seg.len() == end - start);
                    if end - start == 1 {
                        assert(seg[0] == v@[start as int]);
                        assert(seg[0] != dot1[0]);
                    }
                    if end - start == 2 {
                        assert(seg[0] == v@[start as int]);
                        assert(seg[1] == v@[start + 1]);
                        assert(seg[0] != dot2[0] || seg[1] != dot2[1]);
                    }
                    assert(seg != dot1);
                    assert(seg != dot2);
                    assert(seg =~= path@.subrange(start as int, end as int));
                }
                let seg = path.substring_char(start, end);
                return Some(String::from_str(seg));
            }
        }
    }
}

/// `dir` joined with `name` as a path (see [`joined`]).
pub fn join_path(dir: &str, name: &str) -> (res: String)
    ensures
        res@ == joined(dir@, name@),
{
    let nlen = name.unicode_len();
    if nlen > 0 && name.get_char(0) == '/' {
        return String::from_str(name);
    }
    let dlen = dir.unicode_len();
    if dlen == 0 || dir.get_char(dlen - 1) == '/' {
        String::from_str(dir).concat(name)
    } else {
        proof {
            reveal_strlit("/");
        }
        String::from_str(dir).concat("/").concat(name)
    }
}

/// Splits a file name at its last `.` into stem and extension, the
/// extension keeping the `.`: `a.tar.gz` gives `a.tar` and `.gz`; a name
/// without `.` is all stem.
pub fn split_name(name: &str) -> (res: (String, String))
    ensures
        res.0@ == stem_of(name@),
        res.1@ == ext_of(name@),
{
    let v = chars_of(name);
    let n = v.len();
    let mut i = n;
    assert(v@.subrange(0, n as int) =~= name@);
    while i > 0 && v[i - 1] != '.'
        invariant
            i <= n == v@.len(),
            v@ == name@,
            last_dot(v@.subrange(0, i as int)) == last_dot(name@),
        decreases i,
    {
        assert(v@.subrange(0, i as int).drop_last() =~= v@.subrange(0, i - 1));
        i = i - 1;
    }
    proof {
        assert(v@.subrange(0, n as int) =~= name@);
    }
    if i == 0 {
        assert(last_dot(v@.subrange(0, 0)) == -1);
        (String::from_str(name), String::new())
    } else {
        assert(last_dot(v@.subrange(0, i as int)) == i - 1);
        let stem = name.substring_char(0, i - 1);
        let ext = name.substring_char(i - 1, n);
        (String::from_str(stem), String::from_str(ext))
    }
}

/// The one-character string of the digit `d`.
fn digit_str(d: u32) -> (s: &'static str)
    requires
        d < 10,
    ensures
        s@ == seq![digit_char(d as nat)],
{
    proof {
        reveal_strlit("0");
        reveal_strlit("1");
        reveal_strlit("2");
        reveal_strlit("3");
        reveal_strlit("4");
        reveal_strlit("5");
        reveal_strlit("6");
        reveal_strlit("7");
        reveal_strlit("8");
        reveal_strlit("9");
    }
    if d == 0 {
        "0"
    } else if d == 1 {
        "1"
    } else if d == 2 {
        "2"
    } else if d == 3 {
        "3"
    } else if d == 4 {
        "4"
    } else if d == 5 {
        "5"
    } else if d == 6 {
        "6"
    } else if d == 7 {
        "7"
    } else if d == 8 {
        "8"
    } else {
        "9"
    }
}

/// The decimal notation of `n`.
pub fn decimal_string(n: u32) -> (s: String)
    ensures
        s@ == decimal(n as nat),
    decreases n,
{
    if n < 10 {
        String::from_str(digit_str(n))
    } else {
        let mut s = decimal_string(n / 10);
        s.append(digit_str(n % 10));
        s
    }
}

/// The `k`-th alternative name for `name`: `stem_k.ext`, as in `photo_3.jpg`
/// for `photo.jpg`.
pub fn candidate_name(name: &str, k: u32) -> (res: String)
    ensures
        res@ == candidate(name@, k as nat),
{
    let (stem, ext) = split_name(name);
    let num = decimal_string(k);
    proof {
        reveal_strlit("_");
    }
    stem.concat("_").concat(num.as_str()).concat(ext.as_str())
}

} // verus!
