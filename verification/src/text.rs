//! Verified text utilities: searching, splitting, joining and numeric
//! conversions over `&str` / `String`, each specified against its view.
use vstd::prelude::*;

verus! {

/// `p` is a prefix of `s`.
pub open spec fn starts_with_spec(s: Seq<char>, p: Seq<char>) -> bool {
    p.len() <= s.len() && s.subrange(0, p.len() as int) == p
}

/// `p` occurs in `s` at position `i`.
pub open spec fn match_at(s: Seq<char>, p: Seq<char>, i: int) -> bool {
    0 <= i && i + p.len() <= s.len() && s.subrange(i, i + p.len()) == p
}

/// `p` occurs somewhere in `s`.
pub open spec fn contains_spec(s: Seq<char>, p: Seq<char>) -> bool {
    exists|i: int| match_at(s, p, i)
}

/// Position of the first occurrence of `c` in `s`, if any.
pub open spec fn find_char_spec(s: Seq<char>, c: char) -> Option<int>
    decreases s.len(),
{
    if s.len() == 0 {
        None
    } else if s[0] == c {
        Some(0)
    } else {
        match find_char_spec(s.skip(1), c) {
            None => None,
            Some(i) => Some(i + 1),
        }
    }
}

/// `find_char_spec` returns the first occurrence: the found position holds
/// `c` and no earlier position does; `None` means `c` is absent.
pub proof fn lemma_find_char(s: Seq<char>, c: char)
    ensures
        match find_char_spec(s, c) {
            None => forall|j: int| 0 <= j < s.len() ==> s[j] != c,
            Some(i) => 0 <= i < s.len() && s[i] == c && forall|j: int| 0 <= j < i ==> s[j] != c,
        },
    decreases s.len(),
{
    if s.len() == 0 {
    } else if s[0] == c {
    } else {
        lemma_find_char(s.skip(1), c);
        match find_char_spec(s.skip(1), c) {
            None => {
                assert forall|j: int| 0 <= j < s.len() implies s[j] != c by {
                    if j > 0 {
                        assert(s.skip(1)[j - 1] == s[j]);
                    }
                }
            },
            Some(i) => {
                assert(s.skip(1)[i] == s[i + 1]);
                assert forall|j: int| 0 <= j < i + 1 implies s[j] != c by {
                    if j > 0 {
                        assert(s.skip(1)[j - 1] == s[j]);
                    }
                }
            },
        }
    }
}

/// Character equality of the full views decides string equality.
pub fn str_eq(a: &str, b: &str) -> (r: bool)
    ensures
        r == (a@ == b@),
{
    let alen = a.unicode_len();
    let blen = b.unicode_len();
    if alen != blen {
        proof {
            assert(a@ != b@);
        }
        return false;
    }
    let mut i: usize = 0;
    while i < alen
        invariant
            alen == a@.len(),
            alen == b@.len(),
            i <= alen,
            forall|j: int| 0 <= j < i ==> a@[j] == b@[j],
        decreases alen - i,
    {
        if a.get_char(i) != b.get_char(i) {
            return false;
        }
        i = i + 1;
    }
    proof {
        assert(a@ =~= b@);
    }
    true
}

pub fn starts_with(s: &str, p: &str) -> (r: bool)
    ensures
        r == starts_with_spec(s@, p@),
{
    let slen = s.unicode_len();
    let plen = p.unicode_len();
    if plen > slen {
        return false;
    }
    let mut i: usize = 0;
    while i < plen
        invariant
            slen == s@.len(),
            plen == p@.len(),
            plen <= slen,
            i <= plen,
            forall|j: int| 0 <= j < i ==> s@[j] == p@[j],
        decreases plen - i,
    {
        if s.get_char(i) != p.get_char(i) {
            proof {
                assert(s@.subrange(0, p@.len() as int)[i as int] == s@[i as int]);
            }
            return false;
        }
        i = i + 1;
    }
    proof {
        assert(s@.subrange(0, p@.len() as int) =~= p@);
    }
    true
}

/// Whether `p` occurs in `s` starting at `at`.
pub fn matches_at(s: &str, p: &str, at: usize) -> (r: bool)
    requires
        at <= s@.len(),
    ensures
        r == match_at(s@, p@, at as int),
{
    let slen = s.unicode_len();
    let plen = p.unicode_len();
    if plen > slen - at {
        return false;
    }
    let mut i: usize = 0;
    while i < plen
        invariant
            slen == s@.len(),
            plen == p@.len(),
            at + plen <= slen,
            i <= plen,
            forall|j: int| 0 <= j < i ==> s@[at + j] == p@[j],
        decreases plen - i,
    {
        if s.get_char(at + i) != p.get_char(i) {
            proof {
                assert(s@.subrange(at as int, at + p@.len())[i as int] == s@[at + i]);
            }
            return false;
        }
        i = i + 1;
    }
    proof {
        assert(s@.subrange(at as int, at + p@.len()) =~= p@);
    }
    true
}

pub fn contains_sub(s: &str, p: &str) -> (r: bool)
    ensures
        r == contains_spec(s@, p@),
{
    let slen = s.unicode_len();
    let plen = p.unicode_len();
    if plen > slen {
        proof {
            assert(forall|i: int| !match_at(s@, p@, i));
        }
        return false;
    }
    if plen == 0 {
        proof {
            assert(s@.subrange(0, 0) =~= p@);
            assert(match_at(s@, p@, 0));
        }
        return true;
    }
    let mut i: usize = 0;
    while i <= slen - plen
        invariant
            slen == s@.len(),
            plen == p@.len(),
            1 <= plen <= slen,
            i <= slen - plen + 1,
            forall|j: int| 0 <= j < i ==> !match_at(s@, p@, j),
        decreases slen - plen - i + 1,
    {
        if matches_at(s, p, i) {
            return true;
        }
        i = i + 1;
    }
    proof {
        assert forall|j: int| !match_at(s@, p@, j) by {
            if match_at(s@, p@, j) {
                assert(0 <= j && j + plen <= slen);
                assert(j < i);
            }
        }
    }
    false
}

/// Position of the first `c` in `s`, as `find_char_spec` gives it.
pub fn find_char(s: &str, c: char) -> (r: Option<usize>)
    ensures
        match r {
            None => find_char_spec(s@, c) is None,
            Some(i) => i < s@.len() && find_char_spec(s@, c) == Some(i as int),
        },
{
    let len = s.unicode_len();
    let mut i: usize = 0;
    while i < len
        invariant
            len == s@.len(),
            i <= len,
            forall|j: int| 0 <= j < i ==> s@[j] != c,
        decreases len - i,
    {
        if s.get_char(i) == c {
            proof {
                lemma_find_char(s@, c);
                match find_char_spec(s@, c) {
                    None => {
                        assert(false);
                    },
                    Some(k) => {
                        assert(k == i);
                    },
                }
            }
            return Some(i);
        }
        i = i + 1;
    }
    proof {
        lemma_find_char(s@, c);
        match find_char_spec(s@, c) {
            None => {},
            Some(k) => {
                assert(s@[k] != c);
                assert(false);
            },
        }
    }
    None
}

/// ASCII whitespace, as it appears in rendered scripts and captured
/// output. Trimming is deliberately ASCII-only: the whitespace that
/// surrounds script bodies and process streams is spaces, tabs and line
/// endings; Unicode whitespace passes through untouched.
pub open spec fn is_ws(c: char) -> bool {
    c == ' ' || c == '\t' || c == '\n' || c == '\r'
}

pub open spec fn trim_start_spec(s: Seq<char>) -> Seq<char>
    decreases s.len(),
{
    if s.len() > 0 && is_ws(s[0]) {
        trim_start_spec(s.skip(1))
    } else {
        s
    }
}

pub open spec fn trim_end_spec(s: Seq<char>) -> Seq<char>
    decreases s.len(),
{
    if s.len() > 0 && is_ws(s[s.len() - 1]) {
        trim_end_spec(s.take(s.len() - 1))
    } else {
        s
    }
}

/// `s` without leading and trailing ASCII whitespace.
pub open spec fn trim_spec(s: Seq<char>) -> Seq<char> {
    trim_end_spec(trim_start_spec(s))
}

fn is_ws_exec(c: char) -> (r: bool)
    ensures
        r == is_ws(c),
{
    c == ' ' || c == '\t' || c == '\n' || c == '\r'
}

pub fn trim(s: &str) -> (r: String)
    ensures
        r@ == trim_spec(s@),
{
    let len = s.unicode_len();
    let mut a: usize = 0;
    proof {
        assert(s@.skip(0) =~= s@);
    }
    while a < len && is_ws_exec(s.get_char(a))
        invariant
            len == s@.len(),
            a <= len,
            trim_start_spec(s@) == trim_start_spec(s@.skip(a as int)),
        decreases len - a,
    {
        proof {
            assert(s@.skip(a as int)[0] == s@[a as int]);
            assert(s@.skip(a as int).skip(1) =~= s@.skip(a + 1));
        }
        a = a + 1;
    }
    let ghost t = s@.skip(a as int);
    proof {
        if a < len {
            assert(t[0] == s@[a as int]);
        }
        assert(trim_start_spec(t) == t);
    }
    let mut b: usize = len;
    proof {
        assert(t.take(len - a) =~= t);
    }
    while b > a && is_ws_exec(s.get_char(b - 1))
        invariant
            len == s@.len(),
            a <= b <= len,
            t == s@.skip(a as int),
            trim_end_spec(t) == trim_end_spec(t.take(b - a)),
        decreases b,
    {
        proof {
            let u = t.take(b - a);
            assert(u[u.len() - 1] == s@[b - 1]);
            assert(u.take(u.len() - 1) =~= t.take(b - 1 - a));
        }
        b = b - 1;
    }
    let r = s.substring_char(a, b);
    proof {
        let u = t.take(b - a);
        if b > a {
            assert(u[u.len() - 1] == s@[b - 1]);
        }
        assert(trim_end_spec(u) == u);
        assert(r@ =~= u);
    }
    String::from_str(r)
}

/// One layer of surrounding double quotes: at most one leading and one
/// trailing `"` character are removed.
pub open spec fn strip_quotes_spec(s: Seq<char>) -> Seq<char> {
    let t = if s.len() > 0 && s[0] == '"' {
        s.skip(1)
    } else {
        s
    };
    if t.len() > 0 && t[t.len() - 1] == '"' {
        t.take(t.len() - 1)
    } else {
        t
    }
}

pub fn strip_quotes(s: &str) -> (r: String)
    ensures
        r@ == strip_quotes_spec(s@),
{
    let len = s.unicode_len();
    let lo: usize = if len > 0 && s.get_char(0) == '"' {
        1
    } else {
        0
    };
    let ghost t = if s@.len() > 0 && s@[0] == '"' {
        s@.skip(1)
    } else {
        s@
    };
    proof {
        assert(t =~= s@.subrange(lo as int, s@.len() as int));
    }
    let hi: usize = if len > lo && s.get_char(len - 1) == '"' {
        len - 1
    } else {
        len
    };
    proof {
        if t.len() > 0 {
            assert(t[t.len() - 1] == s@[s@.len() - 1]);
        }
    }
    let r = s.substring_char(lo, hi);
    proof {
        if t.len() > 0 && t[t.len() - 1] == '"' {
            assert(r@ =~= t.take(t.len() - 1));
        } else {
            assert(r@ =~= t);
        }
    }
    r.to_owned()
}

/// A line terminated by `\n` loses one trailing carriage return.
pub open spec fn strip_cr(l: Seq<char>) -> Seq<char> {
    if l.len() > 0 && l[l.len() - 1] == '\r' {
        l.take(l.len() - 1)
    } else {
        l
    }
}

/// The lines of `s`: split at `\n`, a `\r` before the `\n` dropped, the
/// final line terminator optional.
pub open spec fn lines_spec(s: Seq<char>) -> Seq<Seq<char>>
    decreases s.len(),
{
    if s.len() == 0 {
        Seq::<Seq<char>>::empty()
    } else {
        match find_char_spec(s, '\n') {
            None => seq![s],
            Some(i) => if 0 <= i < s.len() {
                seq![strip_cr(s.take(i))] + lines_spec(s.skip(i + 1))
            } else {
                seq![s]
            },
        }
    }
}

pub fn lines_of(s: &str) -> (r: Vec<String>)
    ensures
        r.deep_view() == lines_spec(s@),
{
    let mut acc: Vec<String> = Vec::new();
    let mut rest: &str = s;
    let mut rlen = rest.unicode_len();
    proof {
        assert(acc.deep_view() + lines_spec(rest@) =~= lines_spec(s@));
    }
    while rlen > 0
        invariant
            rlen == rest@.len(),
            acc.deep_view() + lines_spec(rest@) == lines_spec(s@),
        decreases rlen,
    {
        let ghost prev = acc.deep_view();
        let ghost prev_rest = rest@;
        match find_char(rest, '\n') {
            None => {
                acc.push(String::from_str(rest));
                rest = rest.substring_char(rlen, rlen);
                rlen = 0;
                proof {
                    assert(rest@ =~= Seq::<char>::empty());
                    assert(lines_spec(prev_rest) == seq![prev_rest]);
                    assert(acc.deep_view() =~= prev.push(prev_rest));
                    assert(acc.deep_view() + lines_spec(rest@) =~= prev + lines_spec(
                        prev_rest,
                    ));
                }
            },
            Some(i) => {
                let line: &str = if i > 0 && rest.get_char(i - 1) == '\r' {
                    rest.substring_char(0, i - 1)
                } else {
                    rest.substring_char(0, i)
                };
                proof {
                    let cut = prev_rest.take(i as int);
                    if i > 0 && prev_rest[i - 1] == '\r' {
                        assert(cut[cut.len() - 1] == prev_rest[i - 1]);
                        assert(line@ =~= cut.take(cut.len() - 1));
                    } else {
                        if cut.len() > 0 {
                            assert(cut[cut.len() - 1] == prev_rest[i - 1]);
                        }
                        assert(line@ =~= cut);
                    }
                    assert(line@ == strip_cr(cut));
                }
                acc.push(String::from_str(line));
                rest = rest.substring_char(i + 1, rlen);
                rlen = rlen - (i + 1);
                proof {
                    assert(rest@ =~= prev_rest.skip(i + 1));
                    assert(lines_spec(prev_rest) == seq![strip_cr(prev_rest.take(i as int))]
                        + lines_spec(prev_rest.skip(i + 1)));
                    assert(acc.deep_view() =~= prev.push(strip_cr(prev_rest.take(i as int))));
                    assert(acc.deep_view() + lines_spec(rest@) =~= prev + lines_spec(
                        prev_rest,
                    ));
                }
            },
        }
    }
    proof {
        assert(lines_spec(rest@) =~= Seq::<Seq<char>>::empty());
        assert(acc.deep_view() =~= lines_spec(s@));
    }
    acc
}

/// The elements of `v` concatenated with `sep` between neighbours.
pub open spec fn join_spec(v: Seq<Seq<char>>, sep: Seq<char>) -> Seq<char>
    decreases v.len(),
{
    if v.len() == 0 {
        Seq::<char>::empty()
    } else if v.len() == 1 {
        v[0]
    } else {
        v[0] + sep + join_spec(v.skip(1), sep)
    }
}

pub proof fn lemma_join_push(v: Seq<Seq<char>>, sep: Seq<char>, x: Seq<char>)
    ensures
        join_spec(v.push(x), sep) == if v.len() == 0 {
            x
        } else {
            join_spec(v, sep) + sep + x
        },
    decreases v.len(),
{
    if v.len() == 0 {
        assert(v.push(x)[0] == x);
        assert(join_spec(v.push(x), sep) == x);
    } else if v.len() == 1 {
        assert(v.push(x).skip(1) =~= seq![x]);
        assert(v.push(x)[0] == v[0]);
        assert(seq![x][0] == x);
        assert(join_spec(seq![x], sep) == x);
        assert(join_spec(v.push(x), sep) == v[0] + sep + x);
        assert(join_spec(v, sep) + sep + x =~= v[0] + sep + x);
    } else {
        lemma_join_push(v.skip(1), sep, x);
        assert(v.push(x).skip(1) =~= v.skip(1).push(x));
        assert(join_spec(v.push(x), sep) == v[0] + sep + join_spec(v.skip(1).push(x), sep));
        assert(join_spec(v.skip(1).push(x), sep) == join_spec(v.skip(1), sep) + sep + x);
        assert(v[0] + sep + (join_spec(v.skip(1), sep) + sep + x) =~= (v[0] + sep + join_spec(
            v.skip(1),
            sep,
        )) + sep + x);
    }
}

pub fn join_with(v: &Vec<String>, sep: &str) -> (r: String)
    ensures
        r@ == join_spec(v.deep_view(), sep@),
{
    let mut out = String::new();
    let mut i: usize = 0;
    while i < v.len()
        invariant
            i <= v.len(),
            out@ == join_spec(v.deep_view().take(i as int), sep@),
        decreases v.len() - i,
    {
        let ghost prefix = v.deep_view().take(i as int);
        if i > 0 {
            out.append(sep);
        }
        out.append(v[i].as_str());
        proof {
            lemma_join_push(prefix, sep@, v.deep_view()[i as int]);
            assert(v.deep_view().take(i + 1) =~= prefix.push(v.deep_view()[i as int]));
        }
        i = i + 1;
    }
    proof {
        assert(v.deep_view().take(v.len() as int) =~= v.deep_view());
    }
    out
}

/// Split at the first occurrence of `c`: the part before it and the part
/// after it, the separator itself dropped.
pub open spec fn split_once_spec(s: Seq<char>, c: char) -> Option<(Seq<char>, Seq<char>)> {
    match find_char_spec(s, c) {
        None => None,
        Some(i) => Some((s.take(i), s.skip(i + 1))),
    }
}

pub fn split_once_at(s: &str, c: char) -> (r: Option<(String, String)>)
    ensures
        match r {
            None => split_once_spec(s@, c) is None,
            Some(pair) => split_once_spec(s@, c) == Some((pair.0@, pair.1@)),
        },
{
    let len = s.unicode_len();
    match find_char(s, c) {
        None => None,
        Some(i) => {
            let before = s.substring_char(0, i);
            let after = s.substring_char(i + 1, len);
            proof {
                assert(before@ =~= s@.take(i as int));
                assert(after@ =~= s@.skip(i + 1));
            }
            Some((before.to_owned(), after.to_owned()))
        },
    }
}

/// Every occurrence of `pat` in `s`, scanned left to right without
/// overlap, replaced by `sub`; an empty pattern leaves `s` unchanged.
pub open spec fn replace_spec(s: Seq<char>, pat: Seq<char>, sub: Seq<char>) -> Seq<char>
    decreases s.len(),
{
    if pat.len() == 0 {
        s
    } else if s.len() < pat.len() {
        s
    } else if s.subrange(0, pat.len() as int) == pat {
        sub + replace_spec(s.skip(pat.len() as int), pat, sub)
    } else {
        seq![s[0]] + replace_spec(s.skip(1), pat, sub)
    }
}

pub fn replace_all(s: &str, pat: &str, sub: &str) -> (r: String)
    ensures
        r@ == replace_spec(s@, pat@, sub@),
{
    let slen = s.unicode_len();
    let plen = pat.unicode_len();
    if plen == 0 {
        return String::from_str(s);
    }
    let mut out = String::new();
    proof {
        assert(s@.skip(0) =~= s@);
        assert(out@ + replace_spec(s@, pat@, sub@) =~= replace_spec(s@, pat@, sub@));
    }
    let mut i: usize = 0;
    while i < slen
        invariant
            slen == s@.len(),
            plen == pat@.len(),
            plen >= 1,
            i <= slen,
            out@ + replace_spec(s@.skip(i as int), pat@, sub@) == replace_spec(s@, pat@, sub@),
        decreases slen - i,
    {
        let ghost prev = out@;
        let ghost cur = s@.skip(i as int);
        if matches_at(s, pat, i) {
            out.append(sub);
            proof {
                assert(cur.subrange(0, pat@.len() as int) =~= s@.subrange(
                    i as int,
                    i + pat@.len(),
                ));
                assert(cur.skip(pat@.len() as int) =~= s@.skip(i + plen));
                assert(replace_spec(cur, pat@, sub@) == sub@ + replace_spec(
                    s@.skip(i + plen),
                    pat@,
                    sub@,
                ));
                assert(out@ + replace_spec(s@.skip(i + plen), pat@, sub@) =~= prev
                    + replace_spec(cur, pat@, sub@));
            }
            i = i + plen;
        } else {
            let piece = s.substring_char(i, i + 1);
            out.append(piece);
            proof {
                assert(piece@ =~= seq![s@[i as int]]);
                assert(cur[0] == s@[i as int]);
                if cur.len() >= pat@.len() {
                    assert(cur.subrange(0, pat@.len() as int) =~= s@.subrange(
                        i as int,
                        i + pat@.len(),
                    ));
                    assert(cur.subrange(0, pat@.len() as int) != pat@);
                    assert(replace_spec(cur, pat@, sub@) == seq![cur[0]] + replace_spec(
                        cur.skip(1),
                        pat@,
                        sub@,
                    ));
                } else {
                    assert(replace_spec(cur, pat@, sub@) == cur);
                    assert(cur =~= seq![cur[0]] + cur.skip(1));
                    assert(replace_spec(cur.skip(1), pat@, sub@) == cur.skip(1));
                }
                assert(cur.skip(1) =~= s@.skip(i + 1));
                assert(out@ + replace_spec(s@.skip(i + 1), pat@, sub@) =~= prev + replace_spec(
                    cur,
                    pat@,
                    sub@,
                ));
            }
            i = i + 1;
        }
    }
    proof {
        assert(s@.skip(slen as int) =~= Seq::<char>::empty());
        assert(replace_spec(s@.skip(slen as int), pat@, sub@) =~= Seq::<char>::empty());
        assert(out@ =~= replace_spec(s@, pat@, sub@));
    }
    out
}

pub open spec fn is_digit(c: char) -> bool {
    48 <= c as int && c as int <= 57
}

pub open spec fn digit_val(c: char) -> int {
    c as int - 48
}

pub open spec fn all_digits(s: Seq<char>) -> bool {
    forall|i: int| 0 <= i < s.len() ==> is_digit(#[trigger] s[i])
}

/// Value of a non-empty decimal digit string, most significant digit first.
pub open spec fn digits_val(s: Seq<char>) -> int
    decreases s.len(),
{
    if s.len() == 0 {
        0
    } else {
        digits_val(s.take(s.len() - 1)) * 10 + digit_val(s[s.len() - 1])
    }
}

pub proof fn lemma_digits_nonneg(s: Seq<char>)
    requires
        all_digits(s),
    ensures
        digits_val(s) >= 0,
    decreases s.len(),
{
    if s.len() > 0 {
        assert(all_digits(s.take(s.len() - 1)));
        lemma_digits_nonneg(s.take(s.len() - 1));
    }
}

pub proof fn lemma_digits_mono(s: Seq<char>, k: int)
    requires
        all_digits(s),
        0 <= k <= s.len(),
    ensures
        digits_val(s) >= digits_val(s.take(k)),
    decreases s.len() - k,
{
    if k < s.len() {
        lemma_digits_mono(s, k + 1);
        assert(s.take(k + 1).take(k) =~= s.take(k));
        assert(all_digits(s.take(k + 1)));
        assert(all_digits(s.take(k)));
        lemma_digits_nonneg(s.take(k));
        assert(digits_val(s.take(k + 1)) == digits_val(s.take(k)) * 10 + digit_val(
            s.take(k + 1)[k],
        ));
    } else {
        assert(s.take(k) =~= s);
    }
}

/// How `str::parse::<i64>` reads text: an optional sign, then one or more
/// decimal digits; `None` on anything else or on overflow.
pub open spec fn parse_i64_spec(s: Seq<char>) -> Option<int> {
    let signed = s.len() > 0 && (s[0] == '+' || s[0] == '-');
    let neg = s.len() > 0 && s[0] == '-';
    let body = if signed {
        s.skip(1)
    } else {
        s
    };
    if body.len() == 0 || !all_digits(body) {
        None
    } else {
        let v = if neg {
            -digits_val(body)
        } else {
            digits_val(body)
        };
        if i64::MIN <= v <= i64::MAX {
            Some(v)
        } else {
            None
        }
    }
}

pub fn parse_i64_opt(s: &str) -> (r: Option<i64>)
    ensures
        match r {
            None => parse_i64_spec(s@) is None,
            Some(v) => parse_i64_spec(s@) == Some(v as int),
        },
{
    let len = s.unicode_len();
    let mut start: usize = 0;
    let mut neg = false;
    if len > 0 {
        let c0 = s.get_char(0);
        if c0 == '-' {
            neg = true;
            start = 1;
        } else if c0 == '+' {
            start = 1;
        }
    }
    let ghost body = if start == 1 {
        s@.skip(1)
    } else {
        s@
    };
    if start == len {
        return None;
    }
    let mut acc: i64 = 0;
    let mut i: usize = start;
    proof {
        assert(s@.subrange(start as int, start as int) =~= Seq::<char>::empty());
    }
    while i < len
        invariant
            len == s@.len(),
            start <= i <= len,
            start < len,
            start <= 1,
            (start == 1) == (s@.len() > 0 && (s@[0] == '+' || s@[0] == '-')),
            neg == (s@.len() > 0 && s@[0] == '-'),
            body == if start == 1 {
                s@.skip(1)
            } else {
                s@
            },
            all_digits(s@.subrange(start as int, i as int)),
            acc <= 0,
            acc == -digits_val(s@.subrange(start as int, i as int)),
        decreases len - i,
    {
        let ghost prefix = s@.subrange(start as int, i as int);
        let c = s.get_char(i);
        if (c as u32) < 48 || (c as u32) > 57 {
            proof {
                assert(body[i - start] == s@[i as int]);
                assert(!is_digit(body[i - start]));
                assert(!all_digits(body));
            }
            return None;
        }
        let d: i64 = ((c as u32) - 48) as i64;
        proof {
            assert(d == digit_val(c));
            assert(s@.subrange(start as int, i + 1) =~= prefix.push(c));
            assert(prefix.push(c).take(prefix.push(c).len() - 1) =~= prefix);
            assert(digits_val(prefix.push(c)) == digits_val(prefix) * 10 + digit_val(c));
        }
        if acc < -922337203685477580i64 || (acc == -922337203685477580i64 && d > 8) {
            // the digits read so far already exceed the signed 64-bit range
            proof {
                let full = s@.subrange(start as int, i + 1);
                assert(digits_val(full) > 9223372036854775808);
                if all_digits(body) {
                    assert(full =~= body.take(i + 1 - start));
                    lemma_digits_mono(body, i + 1 - start);
                    assert(digits_val(body) > 9223372036854775808);
                }
            }
            return None;
        }
        acc = acc * 10 - d;
        i = i + 1;
    }
    proof {
        assert(s@.subrange(start as int, len as int) =~= body);
    }
    if neg {
        Some(acc)
    } else {
        if acc == i64::MIN {
            proof {
                assert(digits_val(body) == 9223372036854775808);
            }
            None
        } else {
            Some(-acc)
        }
    }
}

pub open spec fn digit_char(d: int) -> char {
    if d == 0 {
        '0'
    } else if d == 1 {
        '1'
    } else if d == 2 {
        '2'
    } else if d == 3 {
        '3'
    } else if d == 4 {
        '4'
    } else if d == 5 {
        '5'
    } else if d == 6 {
        '6'
    } else if d == 7 {
        '7'
    } else if d == 8 {
        '8'
    } else {
        '9'
    }
}

/// Decimal text of a natural number, most significant digit first.
pub open spec fn nat_text(n: nat) -> Seq<char>
    decreases n,
{
    if n < 10 {
        seq![digit_char(n as int)]
    } else {
        nat_text(n / 10) + seq![digit_char((n % 10) as int)]
    }
}

/// Decimal text of a signed integer: a leading minus for negatives.
pub open spec fn i64_text(v: int) -> Seq<char> {
    if v < 0 {
        seq!['-'] + nat_text((-v) as nat)
    } else {
        nat_text(v as nat)
    }
}

fn digit_str(d: u64) -> (r: &'static str)
    requires
        d < 10,
    ensures
        r@ == seq![digit_char(d as int)],
{
    if d == 0 {
        proof {
            reveal_strlit("0");
            assert("0"@ =~= seq![digit_char(0)]);
        }
        "0"
    } else if d == 1 {
        proof {
            reveal_strlit("1");
            assert("1"@ =~= seq![digit_char(1)]);
        }
        "1"
    } else if d == 2 {
        proof {
            reveal_strlit("2");
            assert("2"@ =~= seq![digit_char(2)]);
        }
        "2"
    } else if d == 3 {
        proof {
            reveal_strlit("3");
            assert("3"@ =~= seq![digit_char(3)]);
        }
        "3"
    } else if d == 4 {
        proof {
            reveal_strlit("4");
            assert("4"@ =~= seq![digit_char(4)]);
        }
        "4"
    } else if d == 5 {
        proof {
            reveal_strlit("5");
            assert("5"@ =~= seq![digit_char(5)]);
        }
        "5"
    } else if d == 6 {
        proof {
            reveal_strlit("6");
            assert("6"@ =~= seq![digit_char(6)]);
        }
        "6"
    } else if d == 7 {
        proof {
            reveal_strlit("7");
            assert("7"@ =~= seq![digit_char(7)]);
        }
        "7"
    } else if d == 8 {
        proof {
            reveal_strlit("8");
            assert("8"@ =~= seq![digit_char(8)]);
        }
        "8"
    } else {
        proof {
            reveal_strlit("9");
            assert("9"@ =~= seq![digit_char(9)]);
        }
        "9"
    }
}

pub fn u64_to_string(n: u64) -> (r: String)
    ensures
        r@ == nat_text(n as nat),
    decreases n,
{
    if n < 10 {
        String::from_str(digit_str(n))
    } else {
        let mut s = u64_to_string(n / 10);
        s.append(digit_str(n % 10));
        s
    }
}

pub fn i64_to_string(v: i64) -> (r: String)
    ensures
        r@ == i64_text(v as int),
{
    if v >= 0 {
        u64_to_string(v as u64)
    } else {
        let mag: u64 = if v == i64::MIN {
            9223372036854775808u64
        } else {
            (-v) as u64
        };
        proof {
            assert(mag == -(v as int));
        }
        let mut s = String::from_str("-");
        let rest = u64_to_string(mag);
        s.append(rest.as_str());
        proof {
            reveal_strlit("-");
            assert("-"@ =~= seq!['-']);
        }
        s
    }
}

/// How the protocol reads boolean text: exactly `true` is true, any other
/// text (including unparsable text) is false.
pub open spec fn bool_of_text(s: Seq<char>) -> bool {
    s == "true"@
}

pub fn parse_bool_text(s: &str) -> (r: bool)
    ensures
        r == bool_of_text(s@),
{
    str_eq(s, "true")
}

} // verus!
