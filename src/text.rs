use vstd::prelude::*;

verus! {

/// Unicode white space, the set that `char::is_whitespace` tests.
pub open spec fn is_space(c: char) -> bool {
    let n = c as u32;
    (0x9 <= n <= 0xd) || n == 0x20 || n == 0x85 || n == 0xa0 || n == 0x1680 || (0x2000 <= n
        <= 0x200a) || n == 0x2028 || n == 0x2029 || n == 0x202f || n == 0x205f || n == 0x3000
}

/// Whether `c` is white space.
pub fn is_space_char(c: char) -> (r: bool)
    ensures
        r == is_space(c),
{
    let n = c as u32;
    (0x9 <= n && n <= 0xd) || n == 0x20 || n == 0x85 || n == 0xa0 || n == 0x1680 || (0x2000 <= n
        && n <= 0x200a) || n == 0x2028 || n == 0x2029 || n == 0x202f || n == 0x205f || n == 0x3000
}

/// `s` without its leading white space.
pub open spec fn trim_start(s: Seq<char>) -> Seq<char>
    decreases s.len(),
{
    if s.len() > 0 && is_space(s[0]) {
        trim_start(s.drop_first())
    } else {
        s
    }
}

/// `s` without its trailing white space.
pub open spec fn trim_end(s: Seq<char>) -> Seq<char>
    decreases s.len(),
{
    if s.len() > 0 && is_space(s.last()) {
        trim_end(s.drop_last())
    } else {
        s
    }
}

/// `s` without white space at either end.
pub open spec fn trim(s: Seq<char>) -> Seq<char> {
    trim_end(trim_start(s))
}

/// `s` without the copies of `c` at its end, however many there are.
pub open spec fn strip_end(s: Seq<char>, c: char) -> Seq<char>
    decreases s.len(),
{
    if s.len() > 0 && s.last() == c {
        strip_end(s.drop_last(), c)
    } else {
        s
    }
}

/// The part of a line before its first `#`: the whole line where it has none.
pub open spec fn code_part(s: Seq<char>) -> Seq<char>
    decreases s.len(),
{
    if s.len() == 0 || s[0] == '#' {
        Seq::empty()
    } else {
        seq![s[0]] + code_part(s.drop_first())
    }
}

/// After reading `s` from the left: the words completed so far and the word being read.
pub open spec fn split_state(s: Seq<char>) -> (Seq<Seq<char>>, Seq<char>)
    decreases s.len(),
{
    if s.len() == 0 {
        (Seq::empty(), Seq::empty())
    } else {
        let (done, cur) = split_state(s.drop_last());
        if !is_space(s.last()) {
            (done, cur.push(s.last()))
        } else if cur.len() > 0 {
            (done.push(cur), Seq::empty())
        } else {
            (done, cur)
        }
    }
}

/// The maximal runs of non-space characters of `s`, in order.
pub open spec fn words(s: Seq<char>) -> Seq<Seq<char>> {
    let (done, cur) = split_state(s);
    if cur.len() > 0 {
        done.push(cur)
    } else {
        done
    }
}

/// The tokens of an instruction line: the words of its code part, each without trailing commas.
pub open spec fn tokens(line: Seq<char>) -> Seq<Seq<char>> {
    words(code_part(line)).map_values(|w: Seq<char>| strip_end(w, ','))
}

/// What each token holds.
pub open spec fn views(v: Seq<Vec<char>>) -> Seq<Seq<char>> {
    v.map_values(|t: Vec<char>| t@)
}

/// The characters of `s`, in order.
pub fn chars_of(s: &str) -> (r: Vec<char>)
    ensures
        r@ == s@,
{
    let mut r: Vec<char> = Vec::new();
    for c in it: s.chars()
        invariant
            r@ == it.seq().take(it.index() as int),
    {
        r.push(c);
    }
    r
}

/// The characters of `v` from `lo` up to `hi`.
pub fn copy_range(v: &Vec<char>, lo: usize, hi: usize) -> (r: Vec<char>)
    requires
        lo <= hi <= v.len(),
    ensures
        r@ == v@.subrange(lo as int, hi as int),
{
    let mut r: Vec<char> = Vec::new();
    let mut i: usize = lo;
    while i < hi
        invariant
            lo <= i <= hi <= v.len(),
            r@ == v@.subrange(lo as int, i as int),
        decreases hi - i,
    {
        r.push(v[i]);
        i = i + 1;
        assert(r@ =~= v@.subrange(lo as int, i as int));
    }
    r
}

/// Whether `t` holds exactly the characters of `s`.
pub fn same_chars(t: &Vec<char>, s: &Vec<char>) -> (r: bool)
    ensures
        r == (t@ == s@),
{
    if t.len() != s.len() {
        return false;
    }
    let mut i: usize = 0;
    while i < t.len()
        invariant
            t.len() == s.len(),
            i <= t.len(),
            t@.take(i as int) == s@.take(i as int),
        decreases t.len() - i,
    {
        if t[i] != s[i] {
            assert(t@[i as int] != s@[i as int]);
            return false;
        }
        assert(t@.take(i + 1) =~= t@.take(i as int).push(t@[i as int]));
        assert(s@.take(i + 1) =~= s@.take(i as int).push(s@[i as int]));
        i = i + 1;
    }
    assert(t@ =~= t@.take(i as int));
    assert(s@ =~= s@.take(i as int));
    true
}

/// Whether `t` holds exactly the characters of `s`.
pub fn is_word(t: &Vec<char>, s: &str) -> (r: bool)
    ensures
        r == (t@ == s@),
{
    let v = chars_of(s);
    same_chars(t, &v)
}

proof fn lemma_trim_start_skip(s: Seq<char>, i: int)
    requires
        0 <= i < s.len(),
        is_space(s[i]),
    ensures
        trim_start(s.subrange(i, s.len() as int)) == trim_start(s.subrange(i + 1, s.len() as int)),
{
    assert(s.subrange(i, s.len() as int).drop_first() =~= s.subrange(i + 1, s.len() as int));
}

proof fn lemma_trim_end_skip(s: Seq<char>, lo: int, hi: int)
    requires
        0 <= lo < hi <= s.len(),
        is_space(s[hi - 1]),
    ensures
        trim_end(s.subrange(lo, hi)) == trim_end(s.subrange(lo, hi - 1)),
{
    assert(s.subrange(lo, hi).drop_last() =~= s.subrange(lo, hi - 1));
}

/// `v` without white space at either end.
pub fn trim_chars(v: &Vec<char>) -> (r: Vec<char>)
    ensures
        r@ == trim(v@),
{
    let len = v.len();
    let mut lo: usize = 0;
    assert(v@.subrange(0, len as int) =~= v@);
    while lo < len && is_space_char(v[lo])
        invariant
            lo <= len == v.len(),
            trim_start(v@.subrange(lo as int, len as int)) == trim_start(v@),
        decreases len - lo,
    {
        proof {
            lemma_trim_start_skip(v@, lo as int);
        }
        lo = lo + 1;
    }
    let mut hi: usize = len;
    while hi > lo && is_space_char(v[hi - 1])
        invariant
            lo <= hi <= len == v.len(),
            trim_end(v@.subrange(lo as int, hi as int)) == trim_end(v@.subrange(lo as int, len as int)),
        decreases hi - lo,
    {
        proof {
            lemma_trim_end_skip(v@, lo as int, hi as int);
        }
        hi = hi - 1;
    }
    copy_range(v, lo, hi)
}

/// `v` without the copies of `c` at its end.
pub fn strip_end_chars(v: &Vec<char>, c: char) -> (r: Vec<char>)
    ensures
        r@ == strip_end(v@, c),
{
    let mut hi: usize = v.len();
    assert(v@.subrange(0, hi as int) =~= v@);
    while hi > 0 && v[hi - 1] == c
        invariant
            hi <= v.len(),
            strip_end(v@.subrange(0, hi as int), c) == strip_end(v@, c),
        decreases hi,
    {
        assert(v@.subrange(0, hi as int).drop_last() =~= v@.subrange(0, hi - 1));
        hi = hi - 1;
    }
    copy_range(v, 0, hi)
}

/// The length of the part of `v` before its first `#`.
fn code_len(v: &Vec<char>) -> (k: usize)
    ensures
        k <= v.len(),
        code_part(v@) == v@.take(k as int),
{
    let mut i: usize = 0;
    assert(v@.subrange(0, v.len() as int) =~= v@);
    assert(v@.take(0) + code_part(v@) =~= code_part(v@));
    while i < v.len() && v[i] != '#'
        invariant
            i <= v.len(),
            code_part(v@) == v@.take(i as int) + code_part(v@.subrange(i as int, v.len() as int)),
        decreases v.len() - i,
    {
        let ghost rest = v@.subrange(i as int, v.len() as int);
        assert(rest.drop_first() =~= v@.subrange(i + 1, v.len() as int));
        assert(v@.take(i + 1) =~= v@.take(i as int) + seq![v@[i as int]]);
        assert(v@.take(i as int) + (seq![rest[0]] + code_part(rest.drop_first())) =~= v@.take(i + 1)
            + code_part(rest.drop_first()));
        i = i + 1;
    }
    assert(code_part(v@.subrange(i as int, v.len() as int)) =~= Seq::<char>::empty());
    assert(v@.take(i as int) + Seq::<char>::empty() =~= v@.take(i as int));
    i
}

/// Splits an instruction line into its tokens: the first is the mnemonic.
pub fn tokenize(line: &Vec<char>) -> (r: Vec<Vec<char>>)
    ensures
        views(r@) == tokens(line@),
{
    let k = code_len(line);
    let ghost code = line@.take(k as int);
    let mut done: Vec<Vec<char>> = Vec::new();
    let mut cur: Vec<char> = Vec::new();
    let mut i: usize = 0;
    while i < k
        invariant
            k <= line.len(),
            code == line@.take(k as int),
            i <= k,
            views(done@) == split_state(code.take(i as int)).0.map_values(
                |w: Seq<char>| strip_end(w, ','),
            ),
            cur@ == split_state(code.take(i as int)).1,
        decreases k - i,
    {
        let ghost old_done = split_state(code.take(i as int)).0;
        assert(code.take(i + 1).drop_last() =~= code.take(i as int));
        let c = line[i];
        if !is_space_char(c) {
            cur.push(c);
        } else if cur.len() > 0 {
            let w = strip_end_chars(&cur, ',');
            proof {
                assert(old_done.push(cur@).map_values(|w: Seq<char>| strip_end(w, ',')) =~= old_done.map_values(
                    |w: Seq<char>| strip_end(w, ','),
                ).push(strip_end(cur@, ',')));
            }
            let ghost before = done@;
            done.push(w);
            assert(views(done@) =~= views(before).push(w@));
            cur = Vec::new();
        }
        i = i + 1;
    }
    assert(code.take(k as int) =~= code);
    if cur.len() > 0 {
        let ghost old_done = split_state(code).0;
        let w = strip_end_chars(&cur, ',');
        proof {
            assert(old_done.push(cur@).map_values(|w: Seq<char>| strip_end(w, ',')) =~= old_done.map_values(
                |w: Seq<char>| strip_end(w, ','),
            ).push(strip_end(cur@, ',')));
        }
        let ghost before = done@;
        done.push(w);
        assert(views(done@) =~= views(before).push(w@));
    }
    assert(views(done@) =~= tokens(line@));
    done
}

proof fn lemma_trim_start_first(s: Seq<char>)
    ensures
        trim_start(s).len() > 0 ==> !is_space(trim_start(s)[0]),
    decreases s.len(),
{
    if s.len() > 0 && is_space(s[0]) {
        lemma_trim_start_first(s.drop_first());
    }
}

proof fn lemma_trim_end_prefix(s: Seq<char>)
    ensures
        trim_end(s).len() <= s.len(),
        trim_end(s) == s.take(trim_end(s).len() as int),
        trim_end(s).len() > 0 ==> !is_space(trim_end(s).last()),
    decreases s.len(),
{
    if s.len() > 0 && is_space(s.last()) {
        lemma_trim_end_prefix(s.drop_last());
        assert(s.drop_last().take(trim_end(s).len() as int) =~= s.take(trim_end(s).len() as int));
    } else {
        assert(s.take(s.len() as int) =~= s);
    }
}

/// Trimming a trimmed text changes nothing.
pub proof fn lemma_trim_idempotent(s: Seq<char>)
    ensures
        trim(trim(s)) == trim(s),
        trim(s).len() > 0 ==> !is_space(trim(s)[0]) && !is_space(trim(s).last()),
{
    let y = trim_start(s);
    let x = trim_end(y);
    lemma_trim_start_first(s);
    lemma_trim_end_prefix(y);
    if x.len() > 0 {
        assert(x[0] == y[0]);
    }
    assert(trim_start(x) == x);
    assert(trim_end(x) == x);
}

} // verus!
