//! Strings as sequences of characters: the splitting, trimming, searching and
//! rendering that the rest of the crate is built from.

use vstd::prelude::*;
use vstd::string::*;

verus! {

// ---- trusted: the standard library's strings ------------------------------

/// `String::push` appends one character and leaves the rest of the string as
/// it was.
pub assume_specification[ String::push ](s: &mut String, c: char)
    ensures
        final(s)@ == old(s)@.push(c),
;

/// What formatting a string with `{:?}` gives: the text in double quotes with
/// its special characters escaped.
pub uninterp spec fn str_debug(s: Seq<char>) -> Seq<char>;

/// Formats `s` with `{:?}`. The `Debug` impl of `str` is a function of the
/// string's characters alone; which characters it escapes, and how, is left
/// to `str_debug`.
#[verifier::external_body]
pub(crate) fn debug_str(s: &str) -> (r: String)
    ensures
        r@ == str_debug(s@),
{
    format!("{:?}", s)
}

// ---- characters ------------------------------------------------------------

/// The characters with Unicode's `White_Space` property.
pub open spec fn is_white(c: char) -> bool {
    let n = c as u32;
    ||| 0x09 <= n <= 0x0d
    ||| n == 0x20
    ||| n == 0x85
    ||| n == 0xa0
    ||| n == 0x1680
    ||| 0x2000 <= n <= 0x200a
    ||| n == 0x2028
    ||| n == 0x2029
    ||| n == 0x202f
    ||| n == 0x205f
    ||| n == 0x3000
}

/// ASCII upper-case letters to lower case; every other character unchanged.
pub open spec fn lower_char(c: char) -> char {
    if 'A' <= c <= 'Z' {
        (c as u32 + 32) as char
    } else {
        c
    }
}

pub open spec fn is_hex_char(c: char) -> bool {
    ||| '0' <= c <= '9'
    ||| 'a' <= c <= 'f'
    ||| 'A' <= c <= 'F'
}

pub open spec fn is_alnum_char(c: char) -> bool {
    ||| '0' <= c <= '9'
    ||| 'a' <= c <= 'z'
    ||| 'A' <= c <= 'Z'
}

/// The lower-case hexadecimal digit for `n`, which is below 16.
pub open spec fn digit(n: int) -> char {
    if n < 10 {
        ('0' as int + n) as char
    } else {
        ('a' as int + (n - 10)) as char
    }
}

pub fn exec_is_white(c: char) -> (r: bool)
    ensures
        r == is_white(c),
{
    let n: u32 = c as u32;
    (0x09 <= n && n <= 0x0d) || n == 0x20 || n == 0x85 || n == 0xa0 || n == 0x1680 || (0x2000 <= n
        && n <= 0x200a) || n == 0x2028 || n == 0x2029 || n == 0x202f || n == 0x205f || n == 0x3000
}

pub fn exec_lower_char(c: char) -> (r: char)
    ensures
        r == lower_char(c),
{
    if 'A' <= c && c <= 'Z' {
        ((c as u8) + 32) as char
    } else {
        c
    }
}

pub fn exec_is_hex_char(c: char) -> (r: bool)
    ensures
        r == is_hex_char(c),
{
    ('0' <= c && c <= '9') || ('a' <= c && c <= 'f') || ('A' <= c && c <= 'F')
}

pub fn exec_is_alnum_char(c: char) -> (r: bool)
    ensures
        r == is_alnum_char(c),
{
    ('0' <= c && c <= '9') || ('a' <= c && c <= 'z') || ('A' <= c && c <= 'Z')
}

pub fn exec_digit(n: u8) -> (r: char)
    requires
        n < 16,
    ensures
        r == digit(n as int),
{
    if n < 10 {
        (48 + n) as char
    } else {
        (97 + (n - 10)) as char
    }
}

// ---- between strings and characters ----------------------------------------

/// The characters of `s`, in order.
pub fn to_chars(s: &str) -> (v: Vec<char>)
    ensures
        v@ == s@,
{
    let mut v: Vec<char> = Vec::new();
    for c in it: s.chars()
        invariant
            v@ == s@.take(it.index()),
            it.seq() == s@,
    {
        v.push(c);
    }
    assert(s@.take(s@.len() as int) =~= s@);
    v
}

/// The string whose characters are `v[from..to]`.
pub fn from_chars(v: &Vec<char>, from: usize, to: usize) -> (s: String)
    requires
        from <= to <= v@.len(),
    ensures
        s@ == v@.subrange(from as int, to as int),
{
    let mut s = String::new();
    let mut i: usize = from;
    while i < to
        invariant
            from <= i <= to <= v@.len(),
            s@ =~= v@.subrange(from as int, i as int),
        decreases to - i,
    {
        s.push(v[i]);
        i += 1;
    }
    s
}

/// Whether the two strings hold the same characters.
pub fn same(a: &str, b: &str) -> (r: bool)
    ensures
        r == (a@ == b@),
{
    let x = to_chars(a);
    let y = to_chars(b);
    same_chars(&x, &y)
}

fn same_chars(x: &Vec<char>, y: &Vec<char>) -> (r: bool)
    ensures
        r == (x@ == y@),
{
    if x.len() != y.len() {
        return false;
    }
    let mut i: usize = 0;
    while i < x.len()
        invariant
            i <= x@.len(),
            x@.len() == y@.len(),
            forall|j: int| 0 <= j < i ==> x@[j] == y@[j],
        decreases x@.len() - i,
    {
        if x[i] != y[i] {
            assert(x@[i as int] != y@[i as int]);
            return false;
        }
        i += 1;
    }
    assert(x@ =~= y@);
    true
}

// ---- case ------------------------------------------------------------------

/// `s` with its ASCII letters in lower case.
pub open spec fn lower(s: Seq<char>) -> Seq<char> {
    s.map_values(|c: char| lower_char(c))
}

pub fn to_lower(s: &str) -> (r: String)
    ensures
        r@ == lower(s@),
{
    let v = to_chars(s);
    let mut r = String::new();
    let mut i: usize = 0;
    while i < v.len()
        invariant
            i <= v@.len(),
            v@ == s@,
            r@ =~= lower(s@.take(i as int)),
        decreases v@.len() - i,
    {
        r.push(exec_lower_char(v[i]));
        i += 1;
    }
    assert(s@.take(s@.len() as int) =~= s@);
    r
}

/// Whether the two strings are equal once ASCII case is set aside.
pub fn same_ignoring_case(a: &str, b: &str) -> (r: bool)
    ensures
        r == (lower(a@) == lower(b@)),
{
    let x = to_lower(a);
    let y = to_lower(b);
    x == y
}

// ---- searching -------------------------------------------------------------

/// `needle` occurs somewhere in `hay`.
pub open spec fn occurs(hay: Seq<char>, needle: Seq<char>) -> bool {
    exists|i: int|
        0 <= i <= hay.len() - needle.len() && #[trigger] hay.subrange(i, i + needle.len())
            == needle
}

/// Whether `n` stands in `h` from position `i` on.
fn stands_at(h: &Vec<char>, n: &Vec<char>, i: usize) -> (r: bool)
    requires
        i + n@.len() <= h@.len(),
    ensures
        r == (h@.subrange(i as int, i + n@.len()) == n@),
{
    let mut j: usize = 0;
    let end: usize = h.len();
    while j < n.len()
        invariant
            j <= n@.len(),
            end == h@.len(),
            i + n@.len() <= end,
            forall|k: int| 0 <= k < j ==> h@[i + k] == n@[k],
        decreases n@.len() - j,
    {
        if h[i + j] != n[j] {
            assert(h@.subrange(i as int, i + n@.len())[j as int] != n@[j as int]);
            return false;
        }
        j += 1;
    }
    assert(h@.subrange(i as int, i + n@.len()) =~= n@);
    true
}

pub fn contains(hay: &str, needle: &str) -> (r: bool)
    ensures
        r == occurs(hay@, needle@),
{
    let h = to_chars(hay);
    let n = to_chars(needle);
    if h.len() < n.len() {
        return false;
    }
    let mut i: usize = 0;
    while i <= h.len() - n.len()
        invariant
            n@.len() <= h@.len(),
            i <= h@.len() - n@.len() + 1,
            h@ == hay@,
            n@ == needle@,
            forall|k: int| 0 <= k < i ==> #[trigger] h@.subrange(k, k + n@.len()) != n@,
        decreases h@.len() - i,
    {
        if stands_at(&h, &n, i) {
            return true;
        }
        if i == h.len() - n.len() {
            return false;
        }
        i += 1;
    }
    false
}

/// `s` begins with `prefix`.
pub open spec fn begins(s: Seq<char>, prefix: Seq<char>) -> bool {
    prefix.len() <= s.len() && s.subrange(0, prefix.len() as int) == prefix
}

pub fn starts_with(s: &str, prefix: &str) -> (r: bool)
    ensures
        r == begins(s@, prefix@),
{
    let h = to_chars(s);
    let n = to_chars(prefix);
    if h.len() < n.len() {
        return false;
    }
    stands_at(&h, &n, 0)
}

// ---- trimming --------------------------------------------------------------

/// `s` without its leading white space.
pub open spec fn trim_start(s: Seq<char>) -> Seq<char>
    decreases s.len(),
{
    if s.len() > 0 && is_white(s[0]) {
        trim_start(s.skip(1))
    } else {
        s
    }
}

/// `s` without its trailing white space.
pub open spec fn trim_end(s: Seq<char>) -> Seq<char>
    decreases s.len(),
{
    if s.len() > 0 && is_white(s.last()) {
        trim_end(s.drop_last())
    } else {
        s
    }
}

/// `s` without the white space around it.
pub open spec fn trimmed(s: Seq<char>) -> Seq<char> {
    trim_end(trim_start(s))
}

/// `s` without the copies of `c` at its end.
pub open spec fn trim_end_of(s: Seq<char>, c: char) -> Seq<char>
    decreases s.len(),
{
    if s.len() > 0 && s.last() == c {
        trim_end_of(s.drop_last(), c)
    } else {
        s
    }
}

/// The first position from `from` on that holds no white space.
fn skip_white(v: &Vec<char>, from: usize) -> (i: usize)
    requires
        from <= v@.len(),
    ensures
        from <= i <= v@.len(),
        trim_start(v@.skip(from as int)) == v@.skip(i as int),
        i < v@.len() ==> !is_white(v@[i as int]),
{
    let mut i: usize = from;
    while i < v.len() && exec_is_white(v[i])
        invariant
            from <= i <= v@.len(),
            trim_start(v@.skip(from as int)) == trim_start(v@.skip(i as int)),
        decreases v@.len() - i,
    {
        proof {
            assert(v@.skip(i as int)[0] == v@[i as int]);
            assert(v@.skip(i as int).skip(1) =~= v@.skip(i + 1));
        }
        i += 1;
    }
    proof {
        if i < v@.len() {
            assert(v@.skip(i as int)[0] == v@[i as int]);
        }
    }
    i
}

pub fn trim(s: &str) -> (r: String)
    ensures
        r@ == trimmed(s@),
{
    let v = to_chars(s);
    assert(v@.skip(0) =~= v@);
    let from = skip_white(&v, 0);
    let mut to: usize = v.len();
    assert(v@.skip(from as int) =~= v@.subrange(from as int, to as int));
    while from < to && exec_is_white(v[to - 1])
        invariant
            from <= to <= v@.len(),
            trim_end(v@.skip(from as int)) == trim_end(v@.subrange(from as int, to as int)),
        decreases to - from,
    {
        proof {
            let cur = v@.subrange(from as int, to as int);
            assert(cur.last() == v@[to - 1]);
            assert(cur.drop_last() =~= v@.subrange(from as int, to - 1));
        }
        to -= 1;
    }
    proof {
        let cur = v@.subrange(from as int, to as int);
        if from < to {
            assert(cur.last() == v@[to - 1]);
        }
    }
    from_chars(&v, from, to)
}

pub fn strip_end(s: &str, c: char) -> (r: String)
    ensures
        r@ == trim_end_of(s@, c),
{
    let v = to_chars(s);
    let mut to: usize = v.len();
    assert(v@.subrange(0, to as int) =~= v@);
    while 0 < to && v[to - 1] == c
        invariant
            to <= v@.len(),
            v@ == s@,
            trim_end_of(s@, c) == trim_end_of(v@.subrange(0, to as int), c),
        decreases to,
    {
        proof {
            let cur = v@.subrange(0, to as int);
            assert(cur.last() == v@[to - 1]);
            assert(cur.drop_last() =~= v@.subrange(0, to - 1));
        }
        to -= 1;
    }
    proof {
        let cur = v@.subrange(0, to as int);
        if 0 < to {
            assert(cur.last() == v@[to - 1]);
        }
    }
    from_chars(&v, 0, to)
}

// ---- splitting -------------------------------------------------------------

/// How many characters stand before the first `c`; all of them if none does.
pub open spec fn run_until(s: Seq<char>, c: char) -> nat
    decreases s.len(),
{
    if s.len() == 0 || s[0] == c {
        0
    } else {
        1 + run_until(s.skip(1), c)
    }
}

/// How many characters stand before the first white space.
pub open spec fn word_len(s: Seq<char>) -> nat
    decreases s.len(),
{
    if s.len() == 0 || is_white(s[0]) {
        0
    } else {
        1 + word_len(s.skip(1))
    }
}

/// `s` without one carriage return at its end.
pub open spec fn without_cr(s: Seq<char>) -> Seq<char> {
    if s.len() > 0 && s.last() == '\r' {
        s.drop_last()
    } else {
        s
    }
}

pub proof fn lemma_run_until_bound(s: Seq<char>, c: char)
    ensures
        run_until(s, c) <= s.len(),
        forall|i: int| 0 <= i < run_until(s, c) ==> s[i] != c,
        run_until(s, c) < s.len() ==> s[run_until(s, c) as int] == c,
    decreases s.len(),
{
    if s.len() > 0 && s[0] != c {
        lemma_run_until_bound(s.skip(1), c);
        assert forall|i: int| 0 <= i < run_until(s, c) implies s[i] != c by {
            if i > 0 {
                assert(s.skip(1)[i - 1] == s[i]);
            }
        }
    }
}

pub proof fn lemma_trim_start_len(s: Seq<char>)
    ensures
        trim_start(s).len() <= s.len(),
    decreases s.len(),
{
    if s.len() > 0 && is_white(s[0]) {
        lemma_trim_start_len(s.skip(1));
    }
}

pub proof fn lemma_word_len_bound(s: Seq<char>)
    ensures
        word_len(s) <= s.len(),
    decreases s.len(),
{
    if s.len() > 0 && !is_white(s[0]) {
        lemma_word_len_bound(s.skip(1));
    }
}

/// The lines of `s`: each ends in a line feed or in a carriage return and a
/// line feed, which are not part of it; the last may lack the line feed.
pub open spec fn lines(s: Seq<char>) -> Seq<Seq<char>>
    decreases s.len(),
{
    let n = run_until(s, '\n');
    if s.len() == 0 {
        Seq::empty()
    } else if n >= s.len() {
        seq![s]
    } else {
        seq![without_cr(s.take(n as int))] + lines(s.skip(n as int + 1))
    }
}

/// The words of `s`: its maximal runs without white space.
pub open spec fn words(s: Seq<char>) -> Seq<Seq<char>>
    decreases s.len(),
    via words_decreases
{
    let t = trim_start(s);
    if t.len() == 0 {
        Seq::empty()
    } else {
        seq![t.take(word_len(t) as int)] + words(t.skip(word_len(t) as int))
    }
}

#[via_fn]
proof fn words_decreases(s: Seq<char>) {
    let t = trim_start(s);
    lemma_trim_start_len(s);
    lemma_word_len_bound(t);
    lemma_trim_start_stops(s);
}

proof fn lemma_trim_start_stops(s: Seq<char>)
    ensures
        trim_start(s).len() > 0 ==> !is_white(trim_start(s)[0]),
    decreases s.len(),
{
    if s.len() > 0 && is_white(s[0]) {
        lemma_trim_start_stops(s.skip(1));
    }
}

/// The characters of each string of `v`.
pub open spec fn texts(v: Seq<String>) -> Seq<Seq<char>> {
    Seq::new(v.len(), |i: int| v[i]@)
}

/// How far the run of characters other than `c` reaches from `from` on.
fn find_from(v: &Vec<char>, from: usize, c: char) -> (i: usize)
    requires
        from <= v@.len(),
    ensures
        i == from + run_until(v@.skip(from as int), c),
        i <= v@.len(),
{
    let mut i: usize = from;
    while i < v.len() && v[i] != c
        invariant
            from <= i <= v@.len(),
            from + run_until(v@.skip(from as int), c) == i + run_until(v@.skip(i as int), c),
        decreases v@.len() - i,
    {
        proof {
            assert(v@.skip(i as int)[0] == v@[i as int]);
            assert(v@.skip(i as int).skip(1) =~= v@.skip(i + 1));
        }
        i += 1;
    }
    proof {
        if i < v@.len() {
            assert(v@.skip(i as int)[0] == v@[i as int]);
        }
    }
    i
}

pub fn split_lines(s: &str) -> (r: Vec<String>)
    ensures
        texts(r@) == lines(s@),
{
    let v = to_chars(s);
    let mut r: Vec<String> = Vec::new();
    let mut i: usize = 0;
    assert(v@.skip(0) =~= v@);
    assert(texts(r@) + lines(v@) =~= lines(v@));
    while i < v.len()
        invariant
            i <= v@.len(),
            v@ == s@,
            texts(r@) + lines(v@.skip(i as int)) == lines(s@),
        decreases v@.len() - i,
    {
        let ghost rest = v@.skip(i as int);
        let end = find_from(&v, i, '\n');
        let ghost before = texts(r@);
        if end >= v.len() {
            let line = from_chars(&v, i, end);
            proof {
                assert(line@ =~= rest);
            }
            r.push(line);
            proof {
                assert(texts(r@) =~= before + seq![rest]);
                assert(lines(rest) == seq![rest]);
                assert(lines(v@.skip(v@.len() as int)) =~= Seq::<Seq<char>>::empty());
                assert(texts(r@) + lines(v@.skip(v@.len() as int)) =~= before + lines(rest));
            }
            i = v.len();
        } else {
            let mut to: usize = end;
            if i < end && v[end - 1] == '\r' {
                to = end - 1;
            }
            let line = from_chars(&v, i, to);
            proof {
                let n = run_until(rest, '\n');
                assert(rest.take(n as int) =~= v@.subrange(i as int, end as int));
                assert(line@ =~= without_cr(rest.take(n as int)));
                assert(rest.skip(n as int + 1) =~= v@.skip(end + 1));
            }
            r.push(line);
            proof {
                assert(texts(r@) =~= before + seq![line@]);
                assert(lines(rest) == seq![line@] + lines(v@.skip(end + 1)));
                assert(texts(r@) + lines(v@.skip(end + 1)) =~= before + lines(rest));
            }
            i = end + 1;
        }
    }
    assert(lines(v@.skip(i as int)) =~= Seq::<Seq<char>>::empty());
    assert(texts(r@) =~= lines(s@));
    r
}

pub fn split_words(s: &str) -> (r: Vec<String>)
    ensures
        texts(r@) == words(s@),
{
    let v = to_chars(s);
    let mut r: Vec<String> = Vec::new();
    assert(v@.skip(0) =~= v@);
    assert(texts(r@) + words(v@) =~= words(v@));
    let mut from: usize = 0;
    let mut i: usize = skip_white(&v, 0);
    while i < v.len()
        invariant
            from <= i <= v@.len(),
            v@ == s@,
            trim_start(v@.skip(from as int)) == v@.skip(i as int),
            i < v@.len() ==> !is_white(v@[i as int]),
            texts(r@) + words(v@.skip(from as int)) == words(s@),
        decreases v@.len() - i,
    {
        let ghost rest = v@.skip(i as int);
        let mut end: usize = i;
        while end < v.len() && !exec_is_white(v[end])
            invariant
                i <= end <= v@.len(),
                rest == v@.skip(i as int),
                i < v@.len(),
                !is_white(v@[i as int]),
                i + word_len(rest) == end + word_len(v@.skip(end as int)),
            decreases v@.len() - end,
        {
            proof {
                assert(v@.skip(end as int)[0] == v@[end as int]);
                assert(v@.skip(end as int).skip(1) =~= v@.skip(end + 1));
            }
            end += 1;
        }
        proof {
            if end < v@.len() {
                assert(v@.skip(end as int)[0] == v@[end as int]);
            }
            assert(rest[0] == v@[i as int]);
            assert(rest.take(word_len(rest) as int) =~= v@.subrange(i as int, end as int));
            assert(rest.skip(word_len(rest) as int) =~= v@.skip(end as int));
        }
        let word = from_chars(&v, i, end);
        let ghost before = texts(r@);
        r.push(word);
        proof {
            assert(texts(r@) =~= before + seq![word@]);
            assert(words(v@.skip(from as int)) == seq![word@] + words(v@.skip(end as int)));
            assert(texts(r@) + words(v@.skip(end as int)) =~= before + words(v@.skip(from as int)));
        }
        from = end;
        i = skip_white(&v, end);
    }
    assert(words(v@.skip(from as int)) =~= Seq::<Seq<char>>::empty());
    assert(texts(r@) =~= words(s@));
    r
}

// ---- joining ---------------------------------------------------------------

/// The parts one after another with `sep` between neighbours.
pub open spec fn joined(parts: Seq<Seq<char>>, sep: Seq<char>) -> Seq<char>
    decreases parts.len(),
{
    if parts.len() == 0 {
        Seq::empty()
    } else if parts.len() == 1 {
        parts[0]
    } else {
        joined(parts.drop_last(), sep) + sep + parts.last()
    }
}

pub fn join(parts: &Vec<String>, sep: &str) -> (r: String)
    ensures
        r@ == joined(texts(parts@), sep@),
{
    let mut r = String::new();
    let mut i: usize = 0;
    while i < parts.len()
        invariant
            i <= parts@.len(),
            r@ == joined(texts(parts@).take(i as int), sep@),
        decreases parts@.len() - i,
    {
        let ghost next = texts(parts@).take(i + 1);
        proof {
            assert(next.drop_last() =~= texts(parts@).take(i as int));
            assert(next.last() == parts@[i as int]@);
        }
        if i == 0 {
            r = parts[i].clone();
        } else {
            r.append(sep);
            r.append(parts[i].as_str());
        }
        i += 1;
    }
    assert(texts(parts@).take(i as int) =~= texts(parts@));
    r
}

// ---- numbers ---------------------------------------------------------------

/// `n` in decimal.
pub open spec fn decimal(n: nat) -> Seq<char>
    decreases n,
{
    if n < 10 {
        seq![digit(n as int)]
    } else {
        decimal(n / 10).push(digit((n % 10) as int))
    }
}

/// `n` in lower-case hexadecimal, without leading zeros.
pub open spec fn hex(n: nat) -> Seq<char>
    decreases n,
{
    if n < 16 {
        seq![digit(n as int)]
    } else {
        hex(n / 16).push(digit((n % 16) as int))
    }
}

/// The low `width` digits of `n` in lower-case hexadecimal.
pub open spec fn hex_fixed(n: nat, width: nat) -> Seq<char>
    decreases width,
{
    if width == 0 {
        Seq::empty()
    } else {
        hex_fixed(n / 16, (width - 1) as nat).push(digit((n % 16) as int))
    }
}

pub fn to_decimal(n: u64) -> (r: String)
    ensures
        r@ == decimal(n as nat),
    decreases n,
{
    if n < 10 {
        let mut r = String::new();
        r.push(exec_digit(n as u8));
        assert(r@ =~= seq![digit(n as int)]);
        r
    } else {
        let mut r = to_decimal(n / 10);
        r.push(exec_digit((n % 10) as u8));
        r
    }
}

pub fn to_hex(n: u64) -> (r: String)
    ensures
        r@ == hex(n as nat),
    decreases n,
{
    if n < 16 {
        let mut r = String::new();
        r.push(exec_digit(n as u8));
        assert(r@ =~= seq![digit(n as int)]);
        r
    } else {
        let mut r = to_hex(n / 16);
        r.push(exec_digit((n % 16) as u8));
        r
    }
}

pub fn to_hex_fixed(n: u64, width: usize) -> (r: String)
    ensures
        r@ == hex_fixed(n as nat, width as nat),
    decreases width,
{
    if width == 0 {
        String::new()
    } else {
        let mut r = to_hex_fixed(n / 16, width - 1);
        r.push(exec_digit((n % 16) as u8));
        r
    }
}

// ---- optional texts ----------------------------------------------------------

/// A text that may be missing.
pub open spec fn opt_text(o: Option<&str>) -> Option<Seq<char>> {
    match o {
        Some(s) => Some(s@),
        None => None,
    }
}

/// A text that may be missing, as nothing.
pub open spec fn or_empty(o: Option<Seq<char>>) -> Seq<char> {
    match o {
        Some(s) => s,
        None => Seq::empty(),
    }
}

pub fn text_or_empty(o: &Option<String>) -> (r: String)
    ensures
        r@ == or_empty(o.deep_view()),
{
    match o {
        Some(s) => s.clone(),
        None => String::new(),
    }
}

/// A text that may be missing, as a human is shown it.
pub open spec fn or_none(o: Option<Seq<char>>) -> Seq<char> {
    match o {
        Some(s) => s,
        None => "none"@,
    }
}

pub fn text_or_none(o: &Option<String>) -> (r: String)
    ensures
        r@ == or_none(o.deep_view()),
{
    match o {
        Some(s) => s.clone(),
        None => "none".to_string(),
    }
}

/// Whether the two are the same text, or both missing.
pub fn same_opt(a: &Option<String>, b: &Option<String>) -> (r: bool)
    ensures
        r == (a.deep_view() == b.deep_view()),
{
    match (a, b) {
        (Some(x), Some(y)) => same(x.as_str(), y.as_str()),
        (None, None) => true,
        _ => false,
    }
}

// ---- optional values, as `{:?}` shows them -----------------------------------

/// An optional value whose own text is given.
pub open spec fn opt_shown(o: Option<Seq<char>>) -> Seq<char> {
    match o {
        Some(t) => "Some("@ + t + ")"@,
        None => "None"@,
    }
}

pub fn show_opt(o: Option<&str>) -> (r: String)
    ensures
        r@ == opt_shown(opt_text(o)),
{
    match o {
        Some(t) => {
            let mut r = "Some(".to_string();
            r.append(t);
            r.append(")");
            r
        },
        None => "None".to_string(),
    }
}

pub open spec fn opt_str_debug(o: Option<Seq<char>>) -> Seq<char> {
    match o {
        Some(s) => opt_shown(Some(str_debug(s))),
        None => opt_shown(None),
    }
}

pub open spec fn opt_u8_debug(o: Option<u8>) -> Seq<char> {
    match o {
        Some(n) => opt_shown(Some(decimal(n as nat))),
        None => opt_shown(None),
    }
}

pub fn debug_opt_str(o: &Option<String>) -> (r: String)
    ensures
        r@ == opt_str_debug(o.deep_view()),
{
    match o {
        Some(s) => show_opt(Some(debug_str(s.as_str()).as_str())),
        None => show_opt(None),
    }
}

pub fn debug_opt_u8(o: Option<u8>) -> (r: String)
    ensures
        r@ == opt_u8_debug(o),
{
    match o {
        Some(n) => show_opt(Some(to_decimal(n as u64).as_str())),
        None => show_opt(None),
    }
}

// ---- order -----------------------------------------------------------------

/// Lexicographic order by code point.
pub open spec fn lex_le(a: Seq<char>, b: Seq<char>) -> bool
    decreases a.len(),
{
    if a.len() == 0 {
        true
    } else if b.len() == 0 {
        false
    } else if a[0] != b[0] {
        a[0] < b[0]
    } else {
        lex_le(a.skip(1), b.skip(1))
    }
}

pub fn str_le(a: &str, b: &str) -> (r: bool)
    ensures
        r == lex_le(a@, b@),
{
    let x = to_chars(a);
    let y = to_chars(b);
    let mut i: usize = 0;
    assert(x@.skip(0) =~= x@);
    assert(y@.skip(0) =~= y@);
    while i < x.len() && i < y.len()
        invariant
            i <= x@.len(),
            i <= y@.len(),
            x@ == a@,
            y@ == b@,
            lex_le(a@, b@) == lex_le(x@.skip(i as int), y@.skip(i as int)),
        decreases x@.len() - i,
    {
        proof {
            assert(x@.skip(i as int)[0] == x@[i as int]);
            assert(y@.skip(i as int)[0] == y@[i as int]);
            assert(x@.skip(i as int).skip(1) =~= x@.skip(i + 1));
            assert(y@.skip(i as int).skip(1) =~= y@.skip(i + 1));
        }
        if x[i] != y[i] {
            return x[i] < y[i];
        }
        i += 1;
    }
    i >= x.len()
}

/// The order is total.
pub proof fn lemma_lex_total(a: Seq<char>, b: Seq<char>)
    ensures
        lex_le(a, b) || lex_le(b, a),
    decreases a.len(),
{
    if a.len() > 0 && b.len() > 0 && a[0] == b[0] {
        lemma_lex_total(a.skip(1), b.skip(1));
    }
}

/// The order is transitive.
pub proof fn lemma_lex_transitive(a: Seq<char>, b: Seq<char>, c: Seq<char>)
    requires
        lex_le(a, b),
        lex_le(b, c),
    ensures
        lex_le(a, c),
    decreases a.len(),
{
    if a.len() > 0 && b.len() > 0 && c.len() > 0 && a[0] == b[0] && b[0] == c[0] {
        lemma_lex_transitive(a.skip(1), b.skip(1), c.skip(1));
    }
}

// ---- facts about digits and case ----------------------------------------------

/// A number written in `width` digits has that many, each a lower-case one.
pub proof fn lemma_hex_fixed(n: nat, width: nat)
    ensures
        hex_fixed(n, width).len() == width,
        forall|i: int|
            0 <= i < width ==> is_hex_char(#[trigger] hex_fixed(n, width)[i]) && lower_char(
                hex_fixed(n, width)[i],
            ) == hex_fixed(n, width)[i],
    decreases width,
{
    if width > 0 {
        lemma_hex_fixed(n / 16, (width - 1) as nat);
    }
}

/// Numbers that fit are told apart by their digits.
pub proof fn lemma_hex_fixed_injective(a: nat, b: nat, width: nat)
    requires
        hex_fixed(a, width) == hex_fixed(b, width),
        a < vstd::arithmetic::power::pow(16, width),
        b < vstd::arithmetic::power::pow(16, width),
    ensures
        a == b,
    decreases width,
{
    reveal(vstd::arithmetic::power::pow);
    if width > 0 {
        let (x, y) = (hex_fixed(a, width), hex_fixed(b, width));
        let w = (width - 1) as nat;
        assert(x.last() == digit((a % 16) as int) && y.last() == digit((b % 16) as int));
        assert(x.drop_last() =~= hex_fixed(a / 16, w) && y.drop_last() =~= hex_fixed(b / 16, w));
        assert(a / 16 < vstd::arithmetic::power::pow(16, w));
        assert(b / 16 < vstd::arithmetic::power::pow(16, w));
        lemma_hex_fixed_injective(a / 16, b / 16, w);
    }
}

/// Fewer digits are the last ones of more.
proof fn lemma_hex_fixed_last(n: nat, width: nat, more: nat)
    ensures
        hex_fixed(n, width + more).subrange(more as int, (width + more) as int) == hex_fixed(
            n,
            width,
        ),
    decreases width,
{
    lemma_hex_fixed(n, width + more);
    lemma_hex_fixed(n, width);
    if width > 0 {
        let w = (width - 1) as nat;
        lemma_hex_fixed_last(n / 16, w, more);
        lemma_hex_fixed(n / 16, w + more);
        assert((width + more - 1) as nat == w + more);
        assert(hex_fixed(n, width + more).subrange(more as int, (width + more) as int)
            =~= hex_fixed(n / 16, w + more).subrange(more as int, (w + more) as int).push(
            digit((n % 16) as int),
        ));
    }
}

/// The last four digits of a number are those of its remainder.
pub proof fn lemma_hex_fixed_tail(n: nat)
    ensures
        hex_fixed(n, 8).subrange(4, 8) == hex_fixed(n % 0x1_0000, 4),
{
    let m = n % 0x1_0000;
    let q = n / 0x1_0000;
    lemma_hex_fixed_last(n, 4, 4);
    let (n1, m1) = (n / 16, m / 16);
    let (n2, m2) = (n1 / 16, m1 / 16);
    let (n3, m3) = (n2 / 16, m2 / 16);
    assert(n == m + 0x1_0000 * q);
    assert(n1 == m1 + 0x1000 * q && n % 16 == m % 16);
    assert(n2 == m2 + 0x100 * q && n1 % 16 == m1 % 16);
    assert(n3 == m3 + 0x10 * q && n2 % 16 == m2 % 16);
    assert(n3 % 16 == m3 % 16);
    assert(hex_fixed(n3, 1) =~= hex_fixed(m3, 1)) by {
        reveal_with_fuel(hex_fixed, 2);
    }
    assert(hex_fixed(n2, 2) == hex_fixed(n3, 1).push(digit((n2 % 16) as int)));
    assert(hex_fixed(m2, 2) == hex_fixed(m3, 1).push(digit((m2 % 16) as int)));
    assert(hex_fixed(n1, 3) == hex_fixed(n2, 2).push(digit((n1 % 16) as int)));
    assert(hex_fixed(m1, 3) == hex_fixed(m2, 2).push(digit((m1 % 16) as int)));
    assert(hex_fixed(n, 4) == hex_fixed(n1, 3).push(digit((n % 16) as int)));
    assert(hex_fixed(m, 4) == hex_fixed(m1, 3).push(digit((m % 16) as int)));
}

/// Setting case aside twice is setting it aside once, and it takes no hexadecimal
/// digit for another character.
pub proof fn lemma_lower(s: Seq<char>)
    ensures
        lower(lower(s)) == lower(s),
        lower(s).len() == s.len(),
        forall|i: int|
            0 <= i < s.len() ==> is_hex_char(#[trigger] lower(s)[i]) == is_hex_char(s[i]),
{
    assert forall|c: char| lower_char(#[trigger] lower_char(c)) == lower_char(c) && is_hex_char(
        lower_char(c),
    ) == is_hex_char(c) by {}
    assert(lower(lower(s)) =~= lower(s));
}

/// Where a line feed stands first.
proof fn lemma_run_until_is(s: Seq<char>, c: char, n: int)
    requires
        0 <= n <= s.len(),
        forall|i: int| 0 <= i < n ==> #[trigger] s[i] != c,
        n < s.len() ==> s[n] == c,
    ensures
        run_until(s, c) == n,
{
    lemma_run_until_bound(s, c);
    let m = run_until(s, c) as int;
    if m < n {
        assert(s[m] != c);
    }
    if n < m {
        assert(s[n] != c);
    }
}

/// A line, with its line feed, put behind whole lines is one line more.
pub proof fn lemma_lines_append(contents: Seq<char>, line: Seq<char>)
    requires
        contents.len() > 0 ==> contents.last() == '\n',
        !line.contains('\n'),
        line.len() > 0 ==> line.last() != '\r',
    ensures
        lines(contents + line + seq!['\n']) == lines(contents).push(line),
    decreases contents.len(),
{
    let all = contents + line + seq!['\n'];
    if contents.len() == 0 {
        assert(all =~= line.push('\n'));
        assert forall|i: int| 0 <= i < line.len() implies #[trigger] all[i] != '\n' by {
            assert(line.contains(line[i]));
        }
        lemma_run_until_is(all, '\n', line.len() as int);
        assert(all.take(line.len() as int) =~= line);
        assert(all.skip(line.len() as int + 1) =~= Seq::<char>::empty());
        assert(lines(Seq::<char>::empty()) =~= Seq::<Seq<char>>::empty());
        assert(lines(contents) =~= Seq::<Seq<char>>::empty());
        assert(lines(all) =~= lines(contents).push(line));
    } else {
        lemma_run_until_bound(contents, '\n');
        let n = run_until(contents, '\n') as int;
        assert(n < contents.len()) by {
            if n >= contents.len() {
                assert(contents[contents.len() - 1] != '\n');
            }
        }
        assert forall|i: int| 0 <= i < n implies #[trigger] all[i] != '\n' by {
            assert(all[i] == contents[i]);
        }
        lemma_run_until_is(all, '\n', n);
        let rest = contents.skip(n + 1);
        assert(all.take(n) =~= contents.take(n));
        assert(all.skip(n + 1) =~= rest + line + seq!['\n']);
        lemma_lines_append(rest, line);
        assert(lines(all) =~= lines(contents).push(line));
    }
}

// ---- what the functions on texts promise ---------------------------------------

/// What stands between two texts occurs in the whole.
pub proof fn lemma_occurs_between(a: Seq<char>, n: Seq<char>, b: Seq<char>)
    ensures
        occurs(a + n + b, n),
        occurs(a + (n + b), n),
{
    let h = a + n + b;
    assert(h.subrange(a.len() as int, a.len() as int + n.len()) =~= n);
    assert(a + (n + b) =~= h);
}

/// What occurs in a text occurs in every text that goes on from it.
pub proof fn lemma_occurs_before(a: Seq<char>, b: Seq<char>, n: Seq<char>)
    requires
        occurs(a, n),
    ensures
        occurs(a + b, n),
{
    let i = choose|i: int|
        0 <= i <= a.len() - n.len() && #[trigger] a.subrange(i, i + n.len()) == n;
    assert((a + b).subrange(i, i + n.len()) =~= n);
}

/// What occurs in a text occurs in every text that ends in it.
pub proof fn lemma_occurs_after(a: Seq<char>, b: Seq<char>, n: Seq<char>)
    requires
        occurs(b, n),
    ensures
        occurs(a + b, n),
{
    let i = choose|i: int|
        0 <= i <= b.len() - n.len() && #[trigger] b.subrange(i, i + n.len()) == n;
    assert((a + b).subrange(a.len() + i, a.len() + i + n.len()) =~= n);
}

/// A text occurs in another exactly if that is some text, it, and some text.
pub proof fn law_occurring_is_standing_between(hay: Seq<char>, needle: Seq<char>)
    ensures
        occurs(hay, needle) <==> exists|a: Seq<char>, b: Seq<char>|
            hay == #[trigger] (a + needle + b),
{
    if occurs(hay, needle) {
        let i = choose|i: int|
            0 <= i <= hay.len() - needle.len() && #[trigger] hay.subrange(i, i + needle.len())
                == needle;
        let a = hay.take(i);
        let b = hay.skip(i + needle.len());
        assert(hay =~= a + needle + b) by {
            assert forall|j: int| 0 <= j < hay.len() implies hay[j] == (a + needle + b)[j] by {
                if i <= j < i + needle.len() {
                    assert(hay.subrange(i, i + needle.len())[j - i] == needle[j - i]);
                }
            }
        }
    }
    if exists|a: Seq<char>, b: Seq<char>| hay == #[trigger] (a + needle + b) {
        let (a, b) = choose|a: Seq<char>, b: Seq<char>| hay == #[trigger] (a + needle + b);
        lemma_occurs_between(a, needle, b);
    }
}

/// A text begins with another exactly if it is that and some text.
pub proof fn law_beginning_is_going_on_from(s: Seq<char>, prefix: Seq<char>, rest: Seq<char>)
    ensures
        begins(prefix + rest, prefix),
        begins(s, prefix) ==> s == prefix + s.skip(prefix.len() as int),
{
    assert((prefix + rest).subrange(0, prefix.len() as int) =~= prefix);
    if begins(s, prefix) {
        assert(s =~= s.subrange(0, prefix.len() as int) + s.skip(prefix.len() as int));
    }
}

/// Lower case changes the letters from A to Z into those from a to z, each on its own, and
/// no other character.
pub proof fn law_lower_case_changes_capitals_alone(s: Seq<char>, i: int)
    requires
        0 <= i < s.len(),
    ensures
        lower(s).len() == s.len(),
        'A' <= s[i] <= 'Z' ==> lower(s)[i] as int == s[i] as int + 32,
        !('A' <= s[i] <= 'Z') ==> lower(s)[i] == s[i],
{
}

/// Trimming takes white space off both ends and nothing else: what is left begins and ends
/// with something else, and is nothing exactly if the text is white space alone.
pub proof fn law_trimming_takes_off_white_space_alone(s: Seq<char>)
    ensures
        ({
            let t = trimmed(s);
            &&& exists|i: int|
                {
                    &&& 0 <= i <= s.len() - t.len()
                    &&& t == #[trigger] s.subrange(i, i + t.len())
                    &&& forall|j: int| 0 <= j < i ==> is_white(#[trigger] s[j])
                    &&& forall|j: int| i + t.len() <= j < s.len() ==> is_white(#[trigger] s[j])
                }
            &&& t.len() > 0 ==> !is_white(t[0]) && !is_white(t.last())
            &&& t.len() == 0 <==> forall|i: int|
                0 <= i < s.len() ==> is_white(#[trigger] s[i])
        }),
{
    let u = trim_start(s);
    let t = trimmed(s);
    lemma_trim_start(s);
    lemma_trim_end(u);
    let i = s.len() - u.len();
    assert forall|j: int| 0 <= j < u.len() implies #[trigger] u[j] == s[i + j] by {}
    assert(s.subrange(i, i + t.len()) =~= t) by {
        assert forall|j: int| 0 <= j < t.len() implies s[i + j] == t[j] by {
            assert(t[j] == u[j]);
        }
    }
    assert forall|j: int| i + t.len() <= j < s.len() implies is_white(#[trigger] s[j]) by {
        assert(u[j - i] == s[j]);
    }
    assert forall|j: int| 0 <= j < i implies is_white(#[trigger] s[j]) by {}
    if t.len() > 0 {
        assert(t[0] == u[0]);
        assert(s[i] == t[0]);
    } else {
        assert forall|j: int| 0 <= j < s.len() implies is_white(#[trigger] s[j]) by {
            assert(j < i || i + t.len() <= j);
        }
    }
    assert(exists|i: int|
        {
            &&& 0 <= i <= s.len() - t.len()
            &&& t == #[trigger] s.subrange(i, i + t.len())
            &&& forall|j: int| 0 <= j < i ==> is_white(#[trigger] s[j])
            &&& forall|j: int| i + t.len() <= j < s.len() ==> is_white(#[trigger] s[j])
        });
}

proof fn lemma_trim_start(s: Seq<char>)
    ensures
        trim_start(s).len() <= s.len(),
        trim_start(s) == s.skip(s.len() - trim_start(s).len()),
        forall|j: int| 0 <= j < s.len() - trim_start(s).len() ==> is_white(#[trigger] s[j]),
        trim_start(s).len() > 0 ==> !is_white(trim_start(s)[0]),
    decreases s.len(),
{
    if s.len() > 0 && is_white(s[0]) {
        let r = s.skip(1);
        lemma_trim_start(r);
        let n = r.len() - trim_start(r).len();
        assert(r.skip(n) =~= s.skip(n + 1));
        assert forall|j: int| 0 <= j < n + 1 implies is_white(#[trigger] s[j]) by {
            if j > 0 {
                assert(r[j - 1] == s[j]);
            }
        }
    } else {
        assert(s.skip(0) =~= s);
    }
}

proof fn lemma_trim_end(s: Seq<char>)
    ensures
        trim_end(s).len() <= s.len(),
        trim_end(s) == s.take(trim_end(s).len() as int),
        forall|j: int| trim_end(s).len() <= j < s.len() ==> is_white(#[trigger] s[j]),
        trim_end(s).len() > 0 ==> !is_white(trim_end(s).last()),
    decreases s.len(),
{
    if s.len() > 0 && is_white(s.last()) {
        let r = s.drop_last();
        lemma_trim_end(r);
        let n = trim_end(r).len() as int;
        assert(r.take(n) =~= s.take(n));
        assert forall|j: int| n <= j < s.len() implies is_white(#[trigger] s[j]) by {
            if j < r.len() {
                assert(r[j] == s[j]);
            }
        }
    } else {
        assert(s.take(s.len() as int) =~= s);
    }
}

/// Taking a character off the end takes off every copy of it that stands there, and
/// nothing else.
pub proof fn law_copies_at_the_end_come_off(s: Seq<char>, c: char)
    ensures
        ({
            let t = trim_end_of(s, c);
            &&& t.len() <= s.len()
            &&& t == s.take(t.len() as int)
            &&& t.len() > 0 ==> t.last() != c
            &&& forall|j: int| t.len() <= j < s.len() ==> #[trigger] s[j] == c
        }),
    decreases s.len(),
{
    if s.len() > 0 && s.last() == c {
        let r = s.drop_last();
        law_copies_at_the_end_come_off(r, c);
        let n = trim_end_of(r, c).len() as int;
        assert(r.take(n) =~= s.take(n));
        assert forall|j: int| n <= j < s.len() implies #[trigger] s[j] == c by {
            if j < r.len() {
                assert(r[j] == s[j]);
            }
        }
    } else {
        assert(s.take(s.len() as int) =~= s);
    }
}

/// White space is what Unicode lists as such.
pub proof fn law_white_space_is_unicodes(c: char)
    ensures
        is_white(c) <==> c == ' ' || c == '\u{85}' || c == '\u{a0}' || c == '\u{1680}' || c
            == '\u{2028}' || c == '\u{2029}' || c == '\u{202f}' || c == '\u{205f}' || c
            == '\u{3000}' || ('\t' <= c <= '\r') || ('\u{2000}' <= c <= '\u{200a}'),
{
}

/// What the digits of `s` say in base `b`, read from the left.
pub open spec fn value_of(s: Seq<char>, b: int) -> int
    decreases s.len(),
{
    if s.len() == 0 {
        0
    } else {
        let c = s.last();
        value_of(s.drop_last(), b) * b + (if '0' <= c <= '9' {
            c as int - '0' as int
        } else {
            c as int - 'a' as int + 10
        })
    }
}

/// A number in decimal reads back as the number; it has digits only, and no zero before
/// others.
pub proof fn law_decimal_reads_back(n: nat)
    ensures
        value_of(decimal(n), 10) == n,
        decimal(n).len() > 0,
        n > 0 ==> decimal(n)[0] != '0',
        n == 0 ==> decimal(n) == seq!['0'],
        forall|i: int| 0 <= i < decimal(n).len() ==> '0' <= #[trigger] decimal(n)[i] <= '9',
    decreases n,
{
    reveal_with_fuel(value_of, 2);
    if n < 10 {
        assert(decimal(n).drop_last() =~= Seq::<char>::empty());
    } else {
        law_decimal_reads_back(n / 10);
        assert(decimal(n).drop_last() =~= decimal(n / 10));
    }
}

/// A number in hexadecimal reads back as the number; it has digits and the letters from a
/// to f only, and no zero before others.
pub proof fn law_hexadecimal_reads_back(n: nat)
    ensures
        value_of(hex(n), 16) == n,
        hex(n).len() > 0,
        n > 0 ==> hex(n)[0] != '0',
        n == 0 ==> hex(n) == seq!['0'],
        forall|i: int|
            0 <= i < hex(n).len() ==> ('0' <= #[trigger] hex(n)[i] <= '9') || ('a' <= hex(n)[i]
                <= 'f'),
    decreases n,
{
    reveal_with_fuel(value_of, 2);
    if n < 16 {
        assert(hex(n).drop_last() =~= Seq::<char>::empty());
    } else {
        law_hexadecimal_reads_back(n / 16);
        assert(hex(n).drop_last() =~= hex(n / 16));
    }
}

/// A number in so many hexadecimal digits has that many, and they read back as what of it
/// fits in them: the number itself where all of it does.
pub proof fn law_fixed_hexadecimal_reads_back(n: nat, width: nat)
    ensures
        hex_fixed(n, width).len() == width,
        value_of(hex_fixed(n, width), 16) == n as int % vstd::arithmetic::power::pow(16, width),
        n < vstd::arithmetic::power::pow(16, width) ==> value_of(hex_fixed(n, width), 16) == n,
        forall|i: int|
            0 <= i < width ==> ('0' <= #[trigger] hex_fixed(n, width)[i] <= '9') || ('a'
                <= hex_fixed(n, width)[i] <= 'f'),
    decreases width,
{
    let p = vstd::arithmetic::power::pow(16, width);
    vstd::arithmetic::power::lemma_pow_positive(16, width);
    reveal(vstd::arithmetic::power::pow);
    if width > 0 {
        let w = (width - 1) as nat;
        law_fixed_hexadecimal_reads_back(n / 16, w);
        vstd::arithmetic::power::lemma_pow_positive(16, w);
        assert(hex_fixed(n, width).drop_last() =~= hex_fixed(n / 16, w));
        vstd::arithmetic::div_mod::lemma_mod_breakdown(
            n as int,
            16,
            vstd::arithmetic::power::pow(16, w),
        );
    }
    if n < p {
        vstd::arithmetic::div_mod::lemma_small_mod(n, p as nat);
    }
}

/// Joining two lists is joining each, with the separator between, and a list of one is
/// that one.
pub proof fn law_joining_goes_part_by_part(
    a: Seq<Seq<char>>,
    b: Seq<Seq<char>>,
    sep: Seq<char>,
    part: Seq<char>,
)
    ensures
        joined(Seq::empty(), sep) == Seq::<char>::empty(),
        joined(seq![part], sep) == part,
        a.len() > 0 && b.len() > 0 ==> joined(a + b, sep) == joined(a, sep) + sep + joined(b, sep),
    decreases b.len(),
{
    if a.len() > 0 && b.len() > 0 {
        let t = b.drop_last();
        assert((a + b).drop_last() =~= a + t);
        if t.len() == 0 {
            assert(a + t =~= a);
            assert(joined(b, sep) == b.last());
        } else {
            law_joining_goes_part_by_part(a, t, sep, part);
            assert(joined(a + b, sep) =~= joined(a, sep) + sep + joined(b, sep));
        }
    }
}

/// Each part of a joined list occurs in it.
pub proof fn lemma_part_occurs(parts: Seq<Seq<char>>, sep: Seq<char>, i: int)
    requires
        0 <= i < parts.len(),
    ensures
        occurs(joined(parts, sep), parts[i]),
    decreases parts.len(),
{
    let j = joined(parts, sep);
    if parts.len() == 1 {
        assert(j =~= Seq::empty() + parts[0] + Seq::empty());
        lemma_occurs_between(Seq::empty(), parts[0], Seq::empty());
    } else if i == parts.len() - 1 {
        let head = joined(parts.drop_last(), sep) + sep;
        assert(j =~= head + parts[i] + Seq::empty());
        lemma_occurs_between(head, parts[i], Seq::empty());
    } else {
        lemma_part_occurs(parts.drop_last(), sep, i);
        assert(parts.drop_last()[i] == parts[i]);
        assert(j =~= joined(parts.drop_last(), sep) + (sep + parts.last()));
        lemma_occurs_before(joined(parts.drop_last(), sep), sep + parts.last(), parts[i]);
    }
}

/// Texts are in order by the first character in which they differ, and a text comes before
/// what goes on from it.
pub proof fn law_order_is_by_the_first_difference(
    a: Seq<char>,
    b: Seq<char>,
    n: int,
)
    requires
        0 <= n <= a.len(),
        n <= b.len(),
        a.take(n) == b.take(n),
        n < a.len() && n < b.len() ==> a[n] != b[n],
    ensures
        n < a.len() && n < b.len() ==> (lex_le(a, b) <==> (a[n] as int) < (b[n] as int)),
        n == a.len() ==> lex_le(a, b),
        n == b.len() && n < a.len() ==> !lex_le(a, b),
    decreases n,
{
    if n > 0 {
        let (x, y) = (a.skip(1), b.skip(1));
        assert(a.take(n)[0] == a[0] && b.take(n)[0] == b[0]);
        assert(x.take(n - 1) =~= a.take(n).skip(1));
        assert(y.take(n - 1) =~= b.take(n).skip(1));
        law_order_is_by_the_first_difference(x, y, n - 1);
    }
}

/// A text is cut into lines at each line feed, and the carriage return before it goes too;
/// what stands behind the last one is a line if it is anything.
pub proof fn law_lines_end_at_line_feeds(line: Seq<char>, rest: Seq<char>)
    requires
        forall|i: int| 0 <= i < line.len() ==> #[trigger] line[i] != '\n',
    ensures
        lines(Seq::empty()) == Seq::<Seq<char>>::empty(),
        line.len() > 0 ==> lines(line) == seq![line],
        lines(line + seq!['\n'] + rest) == (if line.len() > 0 && line.last() == '\r' {
            seq![line.drop_last()]
        } else {
            seq![line]
        }) + lines(rest),
{
    let n = line.len() as int;
    lemma_run_until_is(line, '\n', n);
    assert(lines(Seq::<char>::empty()) =~= Seq::<Seq<char>>::empty());
    let s = line + seq!['\n'] + rest;
    assert forall|i: int| 0 <= i < n implies #[trigger] s[i] != '\n' by {
        assert(s[i] == line[i]);
    }
    lemma_run_until_is(s, '\n', n);
    assert(s.take(n) =~= line);
    assert(s.skip(n + 1) =~= rest);
}

/// White space parts words: it never is part of one, and a run of other characters is one
/// word, as long as it goes on.
pub proof fn law_words_are_parted_by_white_space(word: Seq<char>, c: char, rest: Seq<char>)
    requires
        word.len() > 0,
        forall|i: int| 0 <= i < word.len() ==> !is_white(#[trigger] word[i]),
        is_white(c),
    ensures
        words(Seq::empty()) == Seq::<Seq<char>>::empty(),
        words(word) == seq![word],
        words(seq![c] + rest) == words(rest),
        words(word + seq![c] + rest) == seq![word] + words(rest),
{
    assert(words(Seq::<char>::empty()) =~= Seq::<Seq<char>>::empty());
    lemma_word_len_is(word, word.len() as int);
    assert(word.take(word.len() as int) =~= word);
    assert(word.skip(word.len() as int) =~= Seq::<char>::empty());
    assert(words(word) =~= seq![word]);
    assert((seq![c] + rest).skip(1) =~= rest);
    let s = word + seq![c] + rest;
    let n = word.len() as int;
    assert(s[0] == word[0]);
    assert forall|i: int| 0 <= i < n implies !is_white(#[trigger] s[i]) by {
        assert(s[i] == word[i]);
    }
    lemma_word_len_is(s, n);
    assert(s.take(n) =~= word);
    assert(s.skip(n) =~= seq![c] + rest);
    assert(trim_start(seq![c] + rest) == trim_start(rest));
    assert(words(seq![c] + rest) == words(rest));
}

proof fn lemma_word_len_is(s: Seq<char>, n: int)
    requires
        0 <= n <= s.len(),
        forall|i: int| 0 <= i < n ==> !is_white(#[trigger] s[i]),
        n < s.len() ==> is_white(s[n]),
    ensures
        word_len(s) == n,
    decreases n,
{
    if n > 0 {
        let r = s.skip(1);
        assert forall|i: int| 0 <= i < n - 1 implies !is_white(#[trigger] r[i]) by {
            assert(r[i] == s[i + 1]);
        }
        lemma_word_len_is(r, n - 1);
    }
}

/// An optional value is shown as `Some` around its text, or as `None`; one that is missing
/// is shown to a human as `none`, or as nothing.
pub proof fn law_optional_values_are_shown(t: Seq<char>, n: u8)
    ensures
        opt_shown(Some(t)) == "Some("@ + t + ")"@,
        opt_shown(None) == "None"@,
        opt_u8_debug(Some(n)) == "Some("@ + decimal(n as nat) + ")"@,
        opt_u8_debug(None) == "None"@,
        opt_str_debug(Some(t)) == "Some("@ + str_debug(t) + ")"@,
        opt_str_debug(None) == "None"@,
        or_none(Some(t)) == t,
        or_none(None) == "none"@,
        or_empty(Some(t)) == t,
        or_empty(None).len() == 0,
{
}

/// What occurs in a text occurs where that is put between others.
pub proof fn lemma_occurs_inside(a: Seq<char>, b: Seq<char>, c: Seq<char>, n: Seq<char>)
    requires
        occurs(b, n),
    ensures
        occurs(a + b + c, n),
{
    lemma_occurs_after(a, b, n);
    lemma_occurs_before(a + b, c, n);
}

/// Three texts in a row occur, as one, in what ends in them.
pub proof fn lemma_occurs_row(a: Seq<char>, p: Seq<char>, q: Seq<char>, r: Seq<char>)
    ensures
        occurs(a + p + q + r, p + q + r),
{
    assert(a + p + q + r =~= a + (p + q + r) + Seq::empty());
    lemma_occurs_between(a, p + q + r, Seq::empty());
}

/// What occurs in what occurs in a text occurs in the text.
pub proof fn lemma_occurs_trans(a: Seq<char>, b: Seq<char>, c: Seq<char>)
    requires
        occurs(a, b),
        occurs(b, c),
    ensures
        occurs(a, c),
{
    law_occurring_is_standing_between(a, b);
    let (x, y) = choose|x: Seq<char>, y: Seq<char>| a == #[trigger] (x + b + y);
    lemma_occurs_inside(x, b, y, c);
}

/// What occurs in a text occurs in it with two more behind.
pub proof fn lemma_occurs_longer(a: Seq<char>, b: Seq<char>, c: Seq<char>, n: Seq<char>)
    requires
        occurs(a, n),
    ensures
        occurs(a + b + c, n),
{
    lemma_occurs_before(a, b, n);
    lemma_occurs_before(a + b, c, n);
}

} // verus!
