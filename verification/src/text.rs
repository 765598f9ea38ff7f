use vstd::prelude::*;
use vstd::std_specs::iter::IteratorSpec;

verus! {

/// Collects the characters of a string slice into a vector.
pub fn chars_of(s: &str) -> (v: Vec<char>)
    ensures
        v@ == s@,
{
    broadcast use vstd::string::group_string_axioms;
    let mut v: Vec<char> = Vec::new();
    let mut it = s.chars();
    loop
        invariant_except_break
            v@ + it.remaining() == s@,
            it.decrease() is Some,
        ensures
            v@ == s@,
        decreases it.decrease()->0,
    {
        match it.next() {
            Some(c) => {
                v.push(c);
            },
            None => {
                break;
            },
        }
    }
    v
}

/// Appends one character to a `String` (`String::push`).
#[verifier::external_body]
fn push_char(s: &mut String, c: char)
    ensures
        final(s)@ == old(s)@.push(c),
{
    s.push(c);
}

/// Builds a `String` holding exactly the given characters.
pub fn string_of(v: &Vec<char>) -> (s: String)
    ensures
        s@ == v@,
{
    let mut s = String::new();
    let mut i: usize = 0;
    while i < v.len()
        invariant
            0 <= i <= v.len(),
            s@ == v@.take(i as int),
        decreases v.len() - i,
    {
        push_char(&mut s, v[i]);
        assert(v@.take(i as int).push(v@[i as int]) =~= v@.take(i + 1));
        i = i + 1;
    }
    assert(v@.take(v.len() as int) =~= v@);
    s
}

/// Whether `c` has the Unicode `White_Space` property (the set that
/// `char::is_whitespace` documents).
pub open spec fn spec_is_whitespace(c: char) -> bool {
    let x = c as u32;
    ||| 0x9 <= x <= 0xd
    ||| x == 0x20
    ||| x == 0x85
    ||| x == 0xa0
    ||| x == 0x1680
    ||| 0x2000 <= x <= 0x200a
    ||| x == 0x2028
    ||| x == 0x2029
    ||| x == 0x202f
    ||| x == 0x205f
    ||| x == 0x3000
}

/// Decides `spec_is_whitespace`.
pub fn is_whitespace(c: char) -> (r: bool)
    ensures
        r == spec_is_whitespace(c),
{
    let x = c as u32;
    (0x9 <= x && x <= 0xd) || x == 0x20 || x == 0x85 || x == 0xa0 || x == 0x1680 || (0x2000 <= x
        && x <= 0x200a) || x == 0x2028 || x == 0x2029 || x == 0x202f || x == 0x205f || x == 0x3000
}

/// The position of the first `'\n'` in `s`, or `s.len()` when there is none.
pub open spec fn line_end(s: Seq<char>) -> int
    decreases s.len(),
{
    if s.len() == 0 {
        0
    } else if s[0] == '\n' {
        0
    } else {
        1 + line_end(s.drop_first())
    }
}

/// The first line of `s`, as `str::lines` yields it: `None` for the empty
/// string; otherwise the characters before the first `'\n'`, with one `'\r'`
/// dropped from the end when a `'\n'` follows it; the whole of `s` when it
/// holds no `'\n'`.
pub open spec fn spec_first_line(s: Seq<char>) -> Option<Seq<char>> {
    if s.len() == 0 {
        None
    } else {
        let k = line_end(s);
        let line = s.take(k);
        if k < s.len() && k > 0 && line.last() == '\r' {
            Some(line.drop_last())
        } else {
            Some(line)
        }
    }
}

/// The first `'\n'` of `s` is at `k` when no earlier character is one.
pub proof fn lemma_line_end_at(s: Seq<char>, k: int)
    requires
        0 <= k <= s.len(),
        forall|j: int| 0 <= j < k ==> s[j] != '\n',
        k < s.len() ==> s[k] == '\n',
    ensures
        line_end(s) == k,
{
    lemma_line_end(s, k);
}

proof fn lemma_line_end(s: Seq<char>, k: int)
    requires
        0 <= k <= s.len(),
        forall|j: int| 0 <= j < k ==> s[j] != '\n',
        k < s.len() ==> s[k] == '\n',
    ensures
        line_end(s) == k,
    decreases k,
{
    if k > 0 {
        lemma_line_end(s.drop_first(), k - 1);
    }
}

/// The words of `s` as a left-to-right scan builds them: the words finished
/// so far, and the word still being read.
pub open spec fn words_scan(s: Seq<char>) -> (Seq<Seq<char>>, Seq<char>)
    decreases s.len(),
{
    if s.len() == 0 {
        (Seq::empty(), Seq::empty())
    } else {
        let (done, cur) = words_scan(s.drop_last());
        let c = s.last();
        if spec_is_whitespace(c) {
            if cur.len() > 0 {
                (done.push(cur), Seq::empty())
            } else {
                (done, Seq::empty())
            }
        } else {
            (done, cur.push(c))
        }
    }
}

/// The maximal runs of non-whitespace characters of `s`, in order, as
/// `str::split_whitespace` yields them.
pub open spec fn spec_words(s: Seq<char>) -> Seq<Seq<char>> {
    let (done, cur) = words_scan(s);
    if cur.len() > 0 {
        done.push(cur)
    } else {
        done
    }
}

/// `s` without its leading run of `c` (`str::trim_start_matches` with a
/// character).
pub open spec fn spec_trim_start(s: Seq<char>, c: char) -> Seq<char>
    decreases s.len(),
{
    if s.len() > 0 && s[0] == c {
        spec_trim_start(s.drop_first(), c)
    } else {
        s
    }
}

/// `s` with every occurrence of `pat` replaced by `rep`, scanning from the
/// left and never letting two replaced occurrences overlap (`str::replace`).
pub open spec fn spec_replace(s: Seq<char>, pat: Seq<char>, rep: Seq<char>) -> Seq<char>
    decreases s.len(),
{
    if pat.len() == 0 || s.len() < pat.len() {
        s
    } else if s.take(pat.len() as int) == pat {
        rep + spec_replace(s.skip(pat.len() as int), pat, rep)
    } else {
        seq![s[0]] + spec_replace(s.drop_first(), pat, rep)
    }
}

/// The first line of `s` (see `spec_first_line`).
pub fn first_line(s: &Vec<char>) -> (r: Option<Vec<char>>)
    ensures
        r matches Some(l) ==> spec_first_line(s@) == Some(l@),
        r is None ==> spec_first_line(s@) is None,
{
    let n = s.len();
    if n == 0 {
        return None;
    }
    let mut k: usize = 0;
    while k < n && s[k] != '\n'
        invariant
            0 <= k <= n,
            n == s.len(),
            forall|j: int| 0 <= j < k ==> s@[j] != '\n',
        decreases n - k,
    {
        k = k + 1;
    }
    proof {
        lemma_line_end(s@, k as int);
    }
    let end: usize = if k < n && k > 0 && s[k - 1] == '\r' {
        k - 1
    } else {
        k
    };
    let mut line: Vec<char> = Vec::new();
    let mut i: usize = 0;
    while i < end
        invariant
            0 <= i <= end <= k <= n,
            n == s.len(),
            line@ == s@.take(i as int),
        decreases end - i,
    {
        line.push(s[i]);
        assert(s@.take(i as int).push(s@[i as int]) =~= s@.take(i + 1));
        i = i + 1;
    }
    assert(line@ =~= s@.take(k as int).take(end as int));
    Some(line)
}

/// The character sequences that a vector of character vectors holds.
pub open spec fn views_of(v: Seq<Vec<char>>) -> Seq<Seq<char>> {
    v.map_values(|w: Vec<char>| w@)
}

/// The words of `s` (see `spec_words`).
pub fn words(s: &Vec<char>) -> (r: Vec<Vec<char>>)
    ensures
        views_of(r@) == spec_words(s@),
{
    let n = s.len();
    let mut done: Vec<Vec<char>> = Vec::new();
    let mut cur: Vec<char> = Vec::new();
    let mut i: usize = 0;
    while i < n
        invariant
            0 <= i <= n,
            n == s.len(),
            views_of(done@) == words_scan(s@.take(i as int)).0,
            cur@ == words_scan(s@.take(i as int)).1,
        decreases n - i,
    {
        assert(s@.take(i + 1).drop_last() =~= s@.take(i as int));
        let c = s[i];
        if is_whitespace(c) {
            if cur.len() > 0 {
                let ghost before = views_of(done@);
                let finished = cur;
                cur = Vec::new();
                done.push(finished);
                assert(views_of(done@) =~= before.push(finished@));
            }
        } else {
            cur.push(c);
        }
        i = i + 1;
    }
    assert(s@.take(n as int) =~= s@);
    if cur.len() > 0 {
        let ghost before = views_of(done@);
        done.push(cur);
        assert(views_of(done@) =~= before.push(cur@));
    }
    done
}

/// The word at position `n` of `s`, if `s` has that many words.
pub fn nth_word(s: &Vec<char>, n: usize) -> (r: Option<Vec<char>>)
    ensures
        n < spec_words(s@).len() ==> (r matches Some(w) && w@ == spec_words(s@)[n as int]),
        n >= spec_words(s@).len() ==> r is None,
{
    let mut all = words(s);
    if n < all.len() {
        assert(views_of(all@)[n as int] == all@[n as int]@);
        Some(all.swap_remove(n))
    } else {
        None
    }
}

/// `s` without its leading run of `c` (see `spec_trim_start`).
pub fn trim_start(s: &Vec<char>, c: char) -> (r: Vec<char>)
    ensures
        r@ == spec_trim_start(s@, c),
{
    let n = s.len();
    let mut k: usize = 0;
    assert(s@.skip(0) =~= s@);
    while k < n && s[k] == c
        invariant
            0 <= k <= n,
            n == s.len(),
            spec_trim_start(s@, c) == spec_trim_start(s@.skip(k as int), c),
        decreases n - k,
    {
        assert(s@.skip(k as int).drop_first() =~= s@.skip(k + 1));
        k = k + 1;
    }
    let mut r: Vec<char> = Vec::new();
    let mut i: usize = k;
    while i < n
        invariant
            k <= i <= n,
            n == s.len(),
            r@ == s@.subrange(k as int, i as int),
        decreases n - i,
    {
        r.push(s[i]);
        assert(s@.subrange(k as int, i as int).push(s@[i as int]) =~= s@.subrange(k as int, i + 1));
        i = i + 1;
    }
    assert(r@ =~= s@.skip(k as int));
    r
}

/// Whether `pat` occurs in `s` starting at position `at`.
fn occurs_at(s: &Vec<char>, at: usize, pat: &Vec<char>) -> (r: bool)
    requires
        at + pat@.len() <= s@.len(),
    ensures
        r == (s@.subrange(at as int, at + pat@.len()) == pat@),
{
    let m = pat.len();
    let mut j: usize = 0;
    while j < m
        invariant
            0 <= j <= m,
            m == pat@.len(),
            at + m <= s.len(),
            forall|t: int| 0 <= t < j ==> s@[at + t] == pat@[t],
        decreases m - j,
    {
        if s[at + j] != pat[j] {
            assert(s@.subrange(at as int, at + m)[j as int] != pat@[j as int]);
            return false;
        }
        j = j + 1;
    }
    assert(s@.subrange(at as int, at + m) =~= pat@);
    true
}

/// Appends every element of `xs` to `out`.
fn push_all(out: &mut Vec<char>, xs: &Vec<char>)
    ensures
        final(out)@ == old(out)@ + xs@,
{
    let mut i: usize = 0;
    while i < xs.len()
        invariant
            0 <= i <= xs.len(),
            out@ == old(out)@ + xs@.take(i as int),
        decreases xs.len() - i,
    {
        out.push(xs[i]);
        assert(old(out)@ + xs@.take(i + 1) =~= (old(out)@ + xs@.take(i as int)).push(xs@[i as int]));
        i = i + 1;
    }
    assert(xs@.take(xs.len() as int) =~= xs@);
}

/// `s` with every occurrence of `pat` replaced by `rep` (see `spec_replace`).
pub fn replace_chars(s: &Vec<char>, pat: &Vec<char>, rep: &Vec<char>) -> (r: Vec<char>)
    requires
        pat@.len() > 0,
    ensures
        r@ == spec_replace(s@, pat@, rep@),
{
    let n = s.len();
    let m = pat.len();
    let mut out: Vec<char> = Vec::new();
    let mut i: usize = 0;
    assert(s@.skip(0) =~= s@);
    while i < n
        invariant
            0 <= i <= n,
            n == s@.len(),
            m == pat@.len(),
            m > 0,
            spec_replace(s@, pat@, rep@) == out@ + spec_replace(s@.skip(i as int), pat@, rep@),
        decreases n - i,
    {
        let ghost rest = s@.skip(i as int);
        let ghost before = out@;
        if m <= n - i && occurs_at(s, i, pat) {
            assert(rest.take(m as int) =~= s@.subrange(i as int, i + m));
            assert(rest.skip(m as int) =~= s@.skip(i + m));
            push_all(&mut out, rep);
            assert(before + (rep@ + spec_replace(s@.skip(i + m), pat@, rep@)) =~= out@
                + spec_replace(s@.skip(i + m), pat@, rep@));
            i = i + m;
        } else {
            if m <= n - i {
                assert(rest.take(m as int) =~= s@.subrange(i as int, i + m));
            }
            assert(rest.drop_first() =~= s@.skip(i + 1));
            out.push(s[i]);
            assert(before + (seq![s@[i as int]] + spec_replace(s@.skip(i + 1), pat@, rep@))
                =~= out@ + spec_replace(s@.skip(i + 1), pat@, rep@));
            i = i + 1;
        }
    }
    assert(s@.skip(n as int) =~= Seq::<char>::empty());
    assert(out@ + Seq::<char>::empty() =~= out@);
    out
}

/// Whether two string slices hold the same characters.
pub fn same_text(a: &str, b: &str) -> (r: bool)
    ensures
        r == (a@ == b@),
{
    let x = chars_of(a);
    let y = chars_of(b);
    if x.len() != y.len() {
        return false;
    }
    let mut i: usize = 0;
    while i < x.len()
        invariant
            0 <= i <= x.len(),
            x.len() == y.len(),
            x@ == a@,
            y@ == b@,
            forall|j: int| 0 <= j < i ==> x@[j] == y@[j],
        decreases x.len() - i,
    {
        if x[i] != y[i] {
            assert(a@[i as int] != b@[i as int]);
            return false;
        }
        i = i + 1;
    }
    assert(x@ =~= y@);
    true
}

/// Whether `pat` occurs in `s` at some position.
pub open spec fn occurs_in(s: Seq<char>, pat: Seq<char>) -> bool {
    exists|i: int| 0 <= i && i + pat.len() <= s.len() && #[trigger] s.subrange(i, i + pat.len()) == pat
}

/// Replacing a non-empty pattern that does not occur leaves the text as it
/// was.
pub proof fn law_replace_absent(s: Seq<char>, pat: Seq<char>, rep: Seq<char>)
    requires
        pat.len() > 0,
        !occurs_in(s, pat),
    ensures
        spec_replace(s, pat, rep) == s,
    decreases s.len(),
{
    if s.len() >= pat.len() {
        assert(s.take(pat.len() as int) =~= s.subrange(0, pat.len() as int));
        assert(s.subrange(0int, 0int + pat.len()) != pat);
        assert(!occurs_in(s.drop_first(), pat)) by {
            if occurs_in(s.drop_first(), pat) {
                let i = choose|i: int|
                    0 <= i && i + pat.len() <= s.drop_first().len()
                        && #[trigger] s.drop_first().subrange(i, i + pat.len()) == pat;
                assert(s.subrange(i + 1, i + 1 + pat.len()) =~= s.drop_first().subrange(
                    i,
                    i + pat.len(),
                ));
            }
        }
        law_replace_absent(s.drop_first(), pat, rep);
        assert(seq![s[0]] + s.drop_first() =~= s);
    }
}

/// Trimming leaves a text that does not start with the trimmed character,
/// and is a suffix of the text it was made from.
pub proof fn law_trim_start(s: Seq<char>, c: char)
    ensures
        spec_trim_start(s, c).len() <= s.len(),
        spec_trim_start(s, c).len() == 0 || spec_trim_start(s, c)[0] != c,
        spec_trim_start(s, c) == s.skip(s.len() - spec_trim_start(s, c).len()),
    decreases s.len(),
{
    if s.len() > 0 && s[0] == c {
        law_trim_start(s.drop_first(), c);
        assert(s.drop_first().skip(s.drop_first().len() - spec_trim_start(s, c).len()) =~= s.skip(
            s.len() - spec_trim_start(s, c).len(),
        ));
    } else {
        assert(s.skip(0) =~= s);
    }
}

/// Whether `w` holds no whitespace character.
pub open spec fn has_no_whitespace(w: Seq<char>) -> bool {
    forall|i: int| 0 <= i < w.len() ==> !spec_is_whitespace(#[trigger] w[i])
}

proof fn lemma_scan_word(s: Seq<char>, w: Seq<char>)
    requires
        has_no_whitespace(w),
    ensures
        words_scan(s + w) == (words_scan(s).0, words_scan(s).1 + w),
    decreases w.len(),
{
    if w.len() == 0 {
        assert(s + w =~= s);
        assert(words_scan(s).1 + w =~= words_scan(s).1);
    } else {
        let v = w.drop_last();
        assert(has_no_whitespace(v));
        lemma_scan_word(s, v);
        assert((s + w).drop_last() =~= s + v);
        assert((s + w).last() == w.last());
        assert(!spec_is_whitespace(w[w.len() - 1]));
        assert((words_scan(s).1 + v).push(w.last()) =~= words_scan(s).1 + w);
    }
}

proof fn lemma_scan_space(s: Seq<char>)
    ensures
        words_scan(s.push(' ')) == (if words_scan(s).1.len() > 0 {
            (words_scan(s).0.push(words_scan(s).1), Seq::<char>::empty())
        } else {
            (words_scan(s).0, Seq::<char>::empty())
        }),
{
    assert(s.push(' ').drop_last() =~= s);
}

/// Three words separated by single spaces are split into those three words.
pub proof fn law_three_words(a: Seq<char>, b: Seq<char>, c: Seq<char>)
    requires
        a.len() > 0,
        b.len() > 0,
        c.len() > 0,
        has_no_whitespace(a),
        has_no_whitespace(b),
        has_no_whitespace(c),
    ensures
        spec_words(a + seq![' '] + b + seq![' '] + c) == seq![a, b, c],
{
    let e = Seq::<char>::empty();
    assert(words_scan(e) == (Seq::<Seq<char>>::empty(), e));
    lemma_scan_word(e, a);
    assert(e + a =~= a);
    lemma_scan_space(a);
    assert(a + seq![' '] =~= a.push(' '));
    let s1 = a + seq![' '];
    lemma_scan_word(s1, b);
    let s2 = s1 + b;
    lemma_scan_space(s2);
    assert(s2 + seq![' '] =~= s2.push(' '));
    let s3 = s2 + seq![' '];
    lemma_scan_word(s3, c);
    assert(e + b =~= b);
    assert(e + c =~= c);
    assert(Seq::<Seq<char>>::empty().push(a).push(b).push(c) =~= seq![a, b, c]);
}

/// Trimming removes exactly the leading run of `c`: when the first `k`
/// characters of `s` are `c` and the next one (if any) is not, the trimmed
/// text is `s` without those `k` characters.
pub proof fn law_trim_start_drops_run(s: Seq<char>, c: char, k: int)
    requires
        0 <= k <= s.len(),
        forall|j: int| 0 <= j < k ==> s[j] == c,
        k < s.len() ==> s[k] != c,
    ensures
        spec_trim_start(s, c) == s.skip(k),
    decreases k,
{
    if k == 0 {
        assert(s.skip(0) =~= s);
    } else {
        assert(s.drop_first().skip(k - 1) =~= s.skip(k));
        law_trim_start_drops_run(s.drop_first(), c, k - 1);
    }
}

/// Replacing a pattern that starts with `{` passes over a prefix without
/// `{` unchanged.
pub proof fn lemma_replace_after_plain(x: Seq<char>, z: Seq<char>, pat: Seq<char>, rep: Seq<char>)
    requires
        pat.len() > 0,
        pat[0] == '{',
        !x.contains('{'),
    ensures
        spec_replace(x + z, pat, rep) == x + spec_replace(z, pat, rep),
    decreases x.len(),
{
    if x.len() == 0 {
        assert(x + z =~= z);
        assert(x + spec_replace(z, pat, rep) =~= spec_replace(z, pat, rep));
    } else {
        let w = x + z;
        assert(w[0] == x[0]);
        assert(x[0] != '{') by {
            if x[0] == '{' {
                assert(x.contains('{'));
            }
        }
        assert(!x.drop_first().contains('{')) by {
            if x.drop_first().contains('{') {
                let j = choose|j: int| 0 <= j < x.drop_first().len() && x.drop_first()[j] == '{';
                assert(x[j + 1] == '{');
            }
        }
        lemma_replace_after_plain(x.drop_first(), z, pat, rep);
        assert(w.drop_first() =~= x.drop_first() + z);
        if w.len() < pat.len() {
            assert(z.len() < pat.len());
            assert(spec_replace(z, pat, rep) == z);
            assert(x + z =~= x + spec_replace(z, pat, rep));
        } else {
            assert(w.take(pat.len() as int)[0] != pat[0]);
            assert(w.take(pat.len() as int) != pat);
            assert(seq![x[0]] + (x.drop_first() + spec_replace(z, pat, rep)) =~= x + spec_replace(
                z,
                pat,
                rep,
            ));
        }
    }
}

/// Replacing a pattern in a text that starts with it puts the replacement
/// first.
pub proof fn lemma_replace_at_pattern(y: Seq<char>, pat: Seq<char>, rep: Seq<char>)
    requires
        pat.len() > 0,
    ensures
        spec_replace(pat + y, pat, rep) == rep + spec_replace(y, pat, rep),
{
    let w = pat + y;
    assert(w.take(pat.len() as int) =~= pat);
    assert(w.skip(pat.len() as int) =~= y);
}

/// Replacing a pattern that starts with `{` leaves a text without `{` as it
/// is.
pub proof fn lemma_replace_plain(x: Seq<char>, pat: Seq<char>, rep: Seq<char>)
    requires
        pat.len() > 0,
        pat[0] == '{',
        !x.contains('{'),
    ensures
        spec_replace(x, pat, rep) == x,
{
    lemma_replace_after_plain(x, Seq::empty(), pat, rep);
    assert(x + Seq::<char>::empty() =~= x);
}

} // verus!
