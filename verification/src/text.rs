//! Text primitives on top of `str`: every function states its result over the
//! sequence of characters that a string holds.

use vstd::prelude::*;
use vstd::string::*;

verus! {

/// `String::push` appends one character.
pub assume_specification[ String::push ](s: &mut String, c: char)
    ensures
        final(s)@ == old(s)@.push(c),
;

/// The characters behind each string of a sequence.
pub open spec fn views(v: Seq<String>) -> Seq<Seq<char>> {
    v.map_values(|s: String| s@)
}

pub broadcast proof fn lemma_views_push(v: Seq<String>, s: String)
    ensures
        #[trigger] views(v.push(s)) == views(v).push(s@),
{
    assert(views(v.push(s)) =~= views(v).push(s@));
}

/// One more string of a list is one more sequence of its views.
pub proof fn lemma_views_take(v: Seq<String>, i: int)
    requires
        0 <= i < v.len(),
    ensures
        views(v.take(i + 1)) == views(v.take(i)).push(v[i]@),
{
    assert(v.take(i + 1) =~= v.take(i).push(v[i]));
    lemma_views_push(v.take(i), v[i]);
}

/// The characters behind an optional string.
pub open spec fn opt_view(o: Option<String>) -> Option<Seq<char>> {
    match o {
        Some(s) => Some(s@),
        None => None,
    }
}

/// The characters behind an optional string slice.
pub open spec fn opt_str_view(o: Option<&str>) -> Option<Seq<char>> {
    match o {
        Some(s) => Some(s@),
        None => None,
    }
}

/// The characters of `s`, in order.
pub fn chars_of(s: &str) -> (v: Vec<char>)
    ensures
        v@ == s@,
{
    let mut v: Vec<char> = Vec::new();
    for c in it: s.chars()
        invariant
            it.seq() == s@,
            v@ == s@.take(it.index() as int),
    {
        v.push(c);
    }
    v
}

/// The string that holds `cs[lo..hi]`.
pub fn string_of(cs: &Vec<char>, lo: usize, hi: usize) -> (r: String)
    requires
        lo <= hi <= cs@.len(),
    ensures
        r@ == cs@.subrange(lo as int, hi as int),
{
    let mut r = String::new();
    let mut i: usize = lo;
    while i < hi
        invariant
            lo <= i <= hi <= cs@.len(),
            r@ == cs@.subrange(lo as int, i as int),
        decreases hi - i,
    {
        r.push(cs[i]);
        i += 1;
        assert(cs@.subrange(lo as int, i as int) =~= cs@.subrange(lo as int, i - 1).push(
            cs@[i - 1],
        ));
    }
    r
}

/// A text in quotes, with what does not print escaped.
pub uninterp spec fn quoted(s: Seq<char>) -> Seq<char>;

/// Formats a text with `{:?}`: in double quotes, and with escapes where
/// `str`'s `Debug` writes them. The result depends on the text alone.
#[verifier::external_body]
pub(crate) fn quote(s: &str) -> (r: String)
    ensures
        r@ == quoted(s@),
{
    format!("{s:?}")
}

/// Adds the UTF-8 bytes of `s` to `out`.
pub fn push_bytes(out: &mut Vec<u8>, s: &str)
    ensures
        final(out)@ == old(out)@ + s.spec_bytes(),
{
    let bytes = s.as_bytes();
    let mut i: usize = 0;
    while i < bytes.len()
        invariant
            i <= bytes@.len(),
            out@ == old(out)@ + bytes@.take(i as int),
        decreases bytes@.len() - i,
    {
        out.push(bytes[i]);
        assert(bytes@.take(i + 1) =~= bytes@.take(i as int).push(bytes@[i as int]));
        i += 1;
    }
    assert(bytes@.take(i as int) =~= bytes@);
}

/// Whether the two strings hold the same characters.
pub fn same(a: &str, b: &str) -> (r: bool)
    ensures
        r == (a@ == b@),
{
    a.to_string() == b.to_string()
}

/// Whether an optional string holds exactly `b`.
pub fn same_opt(a: &Option<String>, b: &str) -> (r: bool)
    ensures
        r == (opt_view(*a) == Some(b@)),
{
    match a {
        Some(s) => same(s.as_str(), b),
        None => false,
    }
}

/// A copy of an optional string.
pub fn copy_opt(o: &Option<String>) -> (r: Option<String>)
    ensures
        opt_view(r) == opt_view(*o),
{
    match o {
        Some(s) => Some(s.clone()),
        None => None,
    }
}

/// A copy of a list of strings.
pub fn copy_list(v: &Vec<String>) -> (r: Vec<String>)
    ensures
        views(r@) == views(v@),
{
    let mut r: Vec<String> = Vec::new();
    let mut i: usize = 0;
    while i < v.len()
        invariant
            i <= v@.len(),
            views(r@) == views(v@.take(i as int)),
        decreases v@.len() - i,
    {
        broadcast use lemma_views_push;

        proof {
            lemma_views_take(v@, i as int);
        }
        r.push(v[i].clone());
        i += 1;
    }
    assert(v@.take(i as int) =~= v@);
    r
}

/// Whether the list holds `s`.
pub fn list_has(v: &Vec<String>, s: &str) -> (r: bool)
    ensures
        r == views(v@).contains(s@),
{
    let mut i: usize = 0;
    while i < v.len()
        invariant
            i <= v@.len(),
            forall|j: int| 0 <= j < i ==> views(v@)[j] != s@,
        decreases v@.len() - i,
    {
        if same(v[i].as_str(), s) {
            assert(views(v@)[i as int] == s@);
            return true;
        }
        i += 1;
    }
    false
}

/// The position of the first `k` in `s`, or the length of `s`.
pub open spec fn first_index<T>(s: Seq<T>, k: T) -> nat
    decreases s.len(),
{
    if s.len() == 0 || s[0] == k {
        0
    } else {
        1 + first_index(s.drop_first(), k)
    }
}

pub proof fn lemma_first_index<T>(s: Seq<T>, k: T)
    ensures
        first_index(s, k) <= s.len(),
        first_index(s, k) < s.len() ==> s[first_index(s, k) as int] == k,
        forall|j: int| 0 <= j < first_index(s, k) ==> s[j] != k,
        first_index(s, k) < s.len() <==> s.contains(k),
    decreases s.len(),
{
    if s.len() > 0 && s[0] != k {
        let t = s.drop_first();
        lemma_first_index(t, k);
        assert forall|j: int| 0 <= j < first_index(s, k) implies s[j] != k by {
            if j > 0 {
                assert(s[j] == t[j - 1]);
            }
        }
        if s.contains(k) {
            let j = s.index_of(k);
            assert(t[j - 1] == k);
        }
    } else if s.len() > 0 {
        assert(s.contains(s[0]));
    }
}

/// Where `s` holds `k` at `i` and nowhere before, `i` is its first position.
pub proof fn lemma_first_index_is<T>(s: Seq<T>, k: T, i: int)
    requires
        0 <= i <= s.len(),
        i < s.len() ==> s[i] == k,
        forall|j: int| 0 <= j < i ==> s[j] != k,
    ensures
        first_index(s, k) == i,
{
    lemma_first_index(s, k);
    let f = first_index(s, k) as int;
    if f < i {
        assert(s[f] == k);
    } else if i < f {
        assert(s[i] != k);
    }
}

// ---- White space ---------------------------------------------------------

/// Whether `c` has the Unicode `White_Space` property.
pub open spec fn space(c: char) -> bool {
    let n = c as u32;
    ||| 0x9 <= n <= 0xd
    ||| n == 0x20
    ||| n == 0x85
    ||| n == 0xa0
    ||| n == 0x1680
    ||| 0x2000 <= n <= 0x200a
    ||| n == 0x2028
    ||| n == 0x2029
    ||| n == 0x202f
    ||| n == 0x205f
    ||| n == 0x3000
}

pub fn is_space(c: char) -> (r: bool)
    ensures
        r == space(c),
{
    let n: u32 = c as u32;
    (0x9 <= n && n <= 0xd) || n == 0x20 || n == 0x85 || n == 0xa0 || n == 0x1680 || (0x2000 <= n
        && n <= 0x200a) || n == 0x2028 || n == 0x2029 || n == 0x202f || n == 0x205f || n == 0x3000
}

/// `s` without its leading white space.
pub open spec fn trim_start(s: Seq<char>) -> Seq<char>
    decreases s.len(),
{
    if s.len() > 0 && space(s[0]) {
        trim_start(s.drop_first())
    } else {
        s
    }
}

/// `s` without its trailing white space.
pub open spec fn trim_end(s: Seq<char>) -> Seq<char>
    decreases s.len(),
{
    if s.len() > 0 && space(s.last()) {
        trim_end(s.drop_last())
    } else {
        s
    }
}

/// `s` without leading and trailing white space.
pub open spec fn trimmed(s: Seq<char>) -> Seq<char> {
    trim_end(trim_start(s))
}

/// `s` without leading and trailing white space.
pub fn trim(s: &str) -> (r: String)
    ensures
        r@ == trimmed(s@),
{
    let cs = chars_of(s);
    let mut lo: usize = 0;
    assert(cs@.skip(0) =~= cs@);
    while lo < cs.len() && is_space(cs[lo])
        invariant
            lo <= cs@.len(),
            trim_start(cs@) == trim_start(cs@.skip(lo as int)),
        decreases cs@.len() - lo,
    {
        assert(cs@.skip(lo as int).drop_first() =~= cs@.skip(lo + 1));
        lo += 1;
    }
    let ghost left = cs@.skip(lo as int);
    assert(trim_start(cs@) == left);
    let mut hi: usize = cs.len();
    assert(cs@.subrange(lo as int, hi as int) =~= left);
    while hi > lo && is_space(cs[hi - 1])
        invariant
            lo <= hi <= cs@.len(),
            trim_end(left) == trim_end(cs@.subrange(lo as int, hi as int)),
        decreases hi,
    {
        assert(cs@.subrange(lo as int, hi as int).drop_last() =~= cs@.subrange(lo as int, hi - 1));
        hi -= 1;
    }
    string_of(&cs, lo, hi)
}

/// `s` without the copies of `c` it ends in.
pub open spec fn without_suffix_char(s: Seq<char>, c: char) -> Seq<char>
    decreases s.len(),
{
    if s.len() > 0 && s.last() == c {
        without_suffix_char(s.drop_last(), c)
    } else {
        s
    }
}

/// `s` without the copies of `c` it ends in.
pub fn trim_end_char(s: &str, c: char) -> (r: String)
    ensures
        r@ == without_suffix_char(s@, c),
{
    let cs = chars_of(s);
    let mut hi: usize = cs.len();
    assert(cs@.subrange(0, hi as int) =~= cs@);
    while hi > 0 && cs[hi - 1] == c
        invariant
            hi <= cs@.len(),
            without_suffix_char(cs@, c) == without_suffix_char(cs@.subrange(0, hi as int), c),
        decreases hi,
    {
        assert(cs@.subrange(0, hi as int).drop_last() =~= cs@.subrange(0, hi - 1));
        hi -= 1;
    }
    string_of(&cs, 0, hi)
}

/// How many characters `s` begins with that are not white space.
pub open spec fn word_len(s: Seq<char>) -> nat
    decreases s.len(),
{
    if s.len() == 0 || space(s[0]) {
        0
    } else {
        1 + word_len(s.drop_first())
    }
}

proof fn lemma_word_len(s: Seq<char>)
    ensures
        word_len(s) <= s.len(),
    decreases s.len(),
{
    if s.len() > 0 && !space(s[0]) {
        lemma_word_len(s.drop_first());
    }
}

/// The maximal runs of characters other than white space, in order.
pub open spec fn words(s: Seq<char>) -> Seq<Seq<char>>
    decreases s.len(),
    via words_decreases
{
    if s.len() == 0 {
        Seq::empty()
    } else if space(s[0]) {
        words(s.drop_first())
    } else {
        seq![s.take(word_len(s) as int)] + words(s.skip(word_len(s) as int))
    }
}

#[via_fn]
proof fn words_decreases(s: Seq<char>) {
    lemma_word_len(s);
}

/// The maximal runs of characters other than white space, in order.
pub fn split_words(s: &str) -> (r: Vec<String>)
    ensures
        views(r@) == words(s@),
{
    let cs = chars_of(s);
    let mut r: Vec<String> = Vec::new();
    let mut i: usize = 0;
    assert(cs@.skip(0) =~= cs@);
    assert(views(r@) =~= Seq::<Seq<char>>::empty());
    assert(words(cs@) =~= views(r@) + words(cs@.skip(0)));
    while i < cs.len()
        invariant
            i <= cs@.len(),
            words(cs@) == views(r@) + words(cs@.skip(i as int)),
        decreases cs@.len() - i,
    {
        let ghost rest = cs@.skip(i as int);
        if is_space(cs[i]) {
            assert(rest.drop_first() =~= cs@.skip(i + 1));
            i += 1;
        } else {
            let lo: usize = i;
            assert(cs@.skip(i as int) == rest);
            while i < cs.len() && !is_space(cs[i])
                invariant
                    lo <= i <= cs@.len(),
                    rest == cs@.skip(lo as int),
                    word_len(rest) == i - lo + word_len(cs@.skip(i as int)),
                decreases cs@.len() - i,
            {
                assert(cs@.skip(i as int).drop_first() =~= cs@.skip(i + 1));
                i += 1;
            }
            assert(word_len(rest) == i - lo);
            assert(rest.take(i - lo) =~= cs@.subrange(lo as int, i as int));
            assert(rest.skip(i - lo) =~= cs@.skip(i as int));
            let ghost before = views(r@);
            r.push(string_of(&cs, lo, i));
            assert(views(r@) =~= before + seq![rest.take(i - lo)]);
            assert(words(cs@) =~= views(r@) + words(cs@.skip(i as int)));
        }
    }
    assert(cs@.skip(i as int).len() == 0);
    assert(words(cs@) =~= views(r@));
    r
}

// ---- Lines ---------------------------------------------------------------

/// The position of the first `c` in `s`, or the length of `s`.
pub open spec fn index_of_char(s: Seq<char>, c: char) -> nat
    decreases s.len(),
{
    if s.len() == 0 || s[0] == c {
        0
    } else {
        1 + index_of_char(s.drop_first(), c)
    }
}

pub proof fn lemma_index_of_char(s: Seq<char>, c: char)
    ensures
        index_of_char(s, c) <= s.len(),
        index_of_char(s, c) < s.len() ==> s[index_of_char(s, c) as int] == c,
        forall|j: int| 0 <= j < index_of_char(s, c) ==> s[j] != c,
    decreases s.len(),
{
    if s.len() > 0 && s[0] != c {
        let t = s.drop_first();
        lemma_index_of_char(t, c);
        assert forall|j: int| 0 <= j < index_of_char(s, c) implies s[j] != c by {
            if j > 0 {
                assert(s[j] == t[j - 1]);
            }
        }
    }
}

/// The position of the first `c` in `cs` from `lo` on, or the length of `cs`.
pub fn find_char(cs: &Vec<char>, lo: usize, c: char) -> (r: usize)
    requires
        lo <= cs@.len(),
    ensures
        lo <= r <= cs@.len(),
        r - lo == index_of_char(cs@.skip(lo as int), c),
{
    let mut i: usize = lo;
    while i < cs.len() && cs[i] != c
        invariant
            lo <= i <= cs@.len(),
            index_of_char(cs@.skip(lo as int), c) == i - lo + index_of_char(cs@.skip(i as int), c),
        decreases cs@.len() - i,
    {
        assert(cs@.skip(i as int).drop_first() =~= cs@.skip(i + 1));
        i += 1;
    }
    i
}

/// `line` without the carriage return it may end in.
pub open spec fn without_cr(line: Seq<char>) -> Seq<char> {
    if line.len() > 0 && line.last() == '\r' {
        line.drop_last()
    } else {
        line
    }
}

/// The lines of `s`: each ends at a line feed, or a carriage return and a line
/// feed, which are not part of it; the last may end with the text.
pub open spec fn lines(s: Seq<char>) -> Seq<Seq<char>>
    decreases s.len(),
    via lines_decreases
{
    if s.len() == 0 {
        Seq::empty()
    } else if index_of_char(s, '\n') == s.len() {
        seq![s]
    } else {
        seq![without_cr(s.take(index_of_char(s, '\n') as int))] + lines(
            s.skip(index_of_char(s, '\n') as int + 1),
        )
    }
}

#[via_fn]
proof fn lines_decreases(s: Seq<char>) {
    lemma_index_of_char(s, '\n');
}

/// The lines of `s`, without their line endings.
pub fn split_lines(s: &str) -> (r: Vec<String>)
    ensures
        views(r@) == lines(s@),
{
    broadcast use lemma_views_push;

    let cs = chars_of(s);
    let mut r: Vec<String> = Vec::new();
    let mut i: usize = 0;
    assert(cs@.skip(0) =~= cs@);
    assert(lines(cs@) =~= views(r@) + lines(cs@.skip(0)));
    while i < cs.len()
        invariant
            i <= cs@.len(),
            lines(cs@) == views(r@) + lines(cs@.skip(i as int)),
        decreases cs@.len() - i,
    {
        let ghost rest = cs@.skip(i as int);
        let ghost before = views(r@);
        let end = find_char(&cs, i, '\n');
        if end == cs.len() {
            r.push(string_of(&cs, i, end));
            assert(cs@.subrange(i as int, end as int) =~= rest);
            i = end;
            assert(lines(cs@.skip(i as int)) =~= Seq::empty());
            assert(lines(cs@) =~= views(r@) + lines(cs@.skip(i as int)));
        } else {
            let hi: usize = if end > i && cs[end - 1] == '\r' {
                end - 1
            } else {
                end
            };
            r.push(string_of(&cs, i, hi));
            assert(rest.take(end - i) =~= cs@.subrange(i as int, end as int));
            assert(cs@.subrange(i as int, hi as int) =~= without_cr(rest.take(end - i)));
            assert(rest.skip(end - i + 1) =~= cs@.skip(end + 1));
            i = end + 1;
            assert(lines(cs@) =~= views(r@) + lines(cs@.skip(i as int)));
        }
    }
    assert(cs@.skip(i as int).len() == 0);
    assert(lines(cs@) =~= views(r@));
    r
}

// ---- Searching -----------------------------------------------------------

/// Whether `s` begins with `p`.
pub open spec fn begins_with(s: Seq<char>, p: Seq<char>) -> bool {
    p.len() <= s.len() && s.take(p.len() as int) == p
}

/// What follows `p` in `s`, where `s` begins with `p`.
pub fn after_prefix(s: &str, p: &str) -> (r: Option<String>)
    ensures
        r is Some == begins_with(s@, p@),
        r matches Some(t) ==> t@ == s@.skip(p@.len() as int),
{
    let cs = chars_of(s);
    let ps = chars_of(p);
    if ps.len() > cs.len() {
        return None;
    }
    let mut i: usize = 0;
    while i < ps.len()
        invariant
            i <= ps@.len() <= cs@.len(),
            cs@ == s@,
            ps@ == p@,
            forall|j: int| 0 <= j < i ==> cs@[j] == ps@[j],
        decreases ps@.len() - i,
    {
        if cs[i] != ps[i] {
            assert(s@.take(p@.len() as int)[i as int] != p@[i as int]);
            return None;
        }
        i += 1;
    }
    assert(s@.take(p@.len() as int) =~= p@);
    assert(cs@.subrange(i as int, cs@.len() as int) =~= s@.skip(p@.len() as int));
    Some(string_of(&cs, i, cs.len()))
}

/// Whether `s` begins with `p`.
pub fn starts_with(s: &str, p: &str) -> (r: bool)
    ensures
        r == begins_with(s@, p@),
{
    after_prefix(s, p).is_some()
}

/// Whether `t` occurs in `s`, at some position.
pub open spec fn occurs_in(t: Seq<char>, s: Seq<char>) -> bool {
    exists|i: int| 0 <= i <= s.len() && #[trigger] begins_with(s.skip(i), t)
}

/// Whether `t` occurs in `s`.
pub fn contains(s: &str, t: &str) -> (r: bool)
    ensures
        r == occurs_in(t@, s@),
{
    let cs = chars_of(s);
    let ts = chars_of(t);
    let mut i: usize = 0;
    loop
        invariant
            i <= cs@.len(),
            cs@ == s@,
            ts@ == t@,
            forall|k: int| 0 <= k < i ==> !#[trigger] begins_with(cs@.skip(k), ts@),
        decreases cs@.len() - i,
    {
        let mut j: usize = 0;
        while j < ts.len() && j < cs.len() - i && cs[i + j] == ts[j]
            invariant
                i <= cs@.len(),
                j <= ts@.len(),
                j <= cs@.len() - i,
                forall|k: int| 0 <= k < j ==> cs@[i + k] == ts@[k],
            decreases ts@.len() - j,
        {
            j += 1;
        }
        let ghost rest = cs@.skip(i as int);
        if j == ts.len() {
            assert(rest.take(ts@.len() as int) =~= ts@);
            assert(begins_with(s@.skip(i as int), t@));
            return true;
        }
        assert(!begins_with(rest, ts@)) by {
            if ts@.len() <= rest.len() {
                assert(rest.take(ts@.len() as int)[j as int] != ts@[j as int]);
            }
        }
        if i == cs.len() {
            return false;
        }
        i += 1;
    }
}

// ---- Numbers -------------------------------------------------------------

pub open spec fn digit(c: char) -> bool {
    '0' <= c <= '9'
}

pub open spec fn digit_value(c: char) -> nat {
    (c as u32 - '0' as u32) as nat
}

/// At least one character, and each a decimal digit.
pub open spec fn all_digits(s: Seq<char>) -> bool {
    s.len() > 0 && forall|i: int| 0 <= i < s.len() ==> digit(#[trigger] s[i])
}

/// The number that a run of decimal digits stands for.
pub open spec fn number(s: Seq<char>) -> nat
    decreases s.len(),
{
    if s.len() == 0 {
        0
    } else {
        number(s.drop_last()) * 10 + digit_value(s.last())
    }
}

proof fn lemma_number_grows(s: Seq<char>, i: int)
    requires
        0 <= i <= s.len(),
    ensures
        number(s.take(i)) <= number(s),
    decreases s.len() - i,
{
    if i < s.len() {
        assert(s.take(i + 1).drop_last() =~= s.take(i));
        lemma_number_grows(s, i + 1);
    } else {
        assert(s.take(i) =~= s);
    }
}

/// Decimal digits, and the number they stand for if it is at most `max`.
pub open spec fn digits_up_to(s: Seq<char>, max: nat) -> Option<nat> {
    if all_digits(s) && number(s) <= max {
        Some(number(s))
    } else {
        None
    }
}

/// `cs[lo..]` read as decimal digits of a number of at most `max`.
fn read_digits(cs: &Vec<char>, lo: usize, max: u64) -> (r: Option<u64>)
    requires
        lo <= cs@.len(),
    ensures
        r is Some == digits_up_to(cs@.skip(lo as int), max as nat) is Some,
        r matches Some(n) ==> Some(n as nat) == digits_up_to(cs@.skip(lo as int), max as nat),
{
    let ghost t = cs@.skip(lo as int);
    if lo == cs.len() {
        return None;
    }
    let mut n: u128 = 0;
    let mut i: usize = lo;
    assert(t.take(0) =~= Seq::empty());
    while i < cs.len()
        invariant
            lo <= i <= cs@.len(),
            t == cs@.skip(lo as int),
            n <= max,
            n == number(t.take(i - lo)),
            forall|j: int| 0 <= j < i - lo ==> digit(#[trigger] t[j]),
        decreases cs@.len() - i,
    {
        let c: char = cs[i];
        assert(t[i - lo] == c);
        if !('0' <= c && c <= '9') {
            return None;
        }
        let d: u128 = (c as u32 - '0' as u32) as u128;
        assert(t.take(i - lo + 1).drop_last() =~= t.take(i - lo));
        assert(number(t.take(i - lo + 1)) == n * 10 + d);
        n = n * 10 + d;
        i += 1;
        if n > max as u128 {
            proof {
                lemma_number_grows(t, i - lo);
            }
            return None;
        }
    }
    assert(t.take(i - lo) =~= t);
    Some(n as u64)
}

/// An unsigned number of at most `max`: decimal digits after an optional `+`.
pub open spec fn unsigned(s: Seq<char>, max: nat) -> Option<nat> {
    if s.len() > 0 && s[0] == '+' {
        digits_up_to(s.skip(1), max)
    } else {
        digits_up_to(s, max)
    }
}

/// Reads an unsigned number of at most `max`.
pub fn parse_unsigned(s: &str, max: u64) -> (r: Option<u64>)
    ensures
        r is Some == unsigned(s@, max as nat) is Some,
        r matches Some(n) ==> Some(n as nat) == unsigned(s@, max as nat),
{
    let cs = chars_of(s);
    assert(cs@.skip(0) =~= cs@);
    if cs.len() > 0 && cs[0] == '+' {
        read_digits(&cs, 1, max)
    } else {
        read_digits(&cs, 0, max)
    }
}

/// Reads a `u32`.
pub fn parse_u32(s: &str) -> (r: Option<u32>)
    ensures
        r is Some == unsigned(s@, u32::MAX as nat) is Some,
        r matches Some(n) ==> Some(n as nat) == unsigned(s@, u32::MAX as nat),
{
    match parse_unsigned(s, u32::MAX as u64) {
        Some(n) => Some(n as u32),
        None => None,
    }
}

/// A signed 32-bit number: decimal digits after an optional sign.
pub open spec fn signed(s: Seq<char>) -> Option<int> {
    if s.len() > 0 && s[0] == '-' {
        match digits_up_to(s.skip(1), 0x8000_0000) {
            Some(n) => Some(-(n as int)),
            None => None,
        }
    } else {
        match unsigned(s, 0x7fff_ffff) {
            Some(n) => Some(n as int),
            None => None,
        }
    }
}

/// Reads an `i32`.
pub fn parse_i32(s: &str) -> (r: Option<i32>)
    ensures
        r is Some == signed(s@) is Some,
        r matches Some(n) ==> Some(n as int) == signed(s@),
{
    let cs = chars_of(s);
    if cs.len() > 0 && cs[0] == '-' {
        match read_digits(&cs, 1, 0x8000_0000) {
            Some(n) => Some((-(n as i64)) as i32),
            None => None,
        }
    } else {
        match parse_unsigned(s, 0x7fff_ffff) {
            Some(n) => Some(n as i32),
            None => None,
        }
    }
}

pub open spec fn digit_char(n: nat) -> char {
    (n + '0' as u32) as char
}

/// `n` in decimal, without leading zeros.
pub open spec fn decimal(n: nat) -> Seq<char>
    decreases n,
{
    if n < 10 {
        seq![digit_char(n)]
    } else {
        decimal(n / 10).push(digit_char(n % 10))
    }
}

fn digit_of(n: u64) -> (c: char)
    requires
        n < 10,
    ensures
        c == digit_char(n as nat),
{
    (n as u8 + 48u8) as char
}

/// `n` in decimal, without leading zeros.
pub fn to_decimal(n: u64) -> (r: String)
    ensures
        r@ == decimal(n as nat),
    decreases n,
{
    if n < 10 {
        let mut r = String::new();
        r.push(digit_of(n));
        assert(r@ =~= seq![digit_char(n as nat)]);
        r
    } else {
        let mut r = to_decimal(n / 10);
        r.push(digit_of(n % 10));
        r
    }
}

/// Reading back a number written in decimal gives the number.
pub proof fn decimal_reads_back(n: nat)
    ensures
        all_digits(decimal(n)),
        number(decimal(n)) == n,
    decreases n,
{
    if n < 10 {
        let s = decimal(n);
        assert(s.drop_last() =~= Seq::empty());
        assert(number(s.drop_last()) == 0);
    } else {
        decimal_reads_back(n / 10);
        assert(decimal(n).drop_last() =~= decimal(n / 10));
    }
}

/// `zeros` copies of the digit zero.
pub open spec fn zeros(n: nat) -> Seq<char> {
    Seq::new(n, |i: int| '0')
}

/// `n` in decimal, with leading zeros up to a width of `width`, a minus sign
/// counting as one character.
pub open spec fn padded(n: int, width: nat) -> Seq<char> {
    let sign: Seq<char> = if n < 0 {
        seq!['-']
    } else {
        Seq::empty()
    };
    let body = decimal(if n < 0 {
        -n as nat
    } else {
        n as nat
    });
    let used = sign.len() + body.len();
    sign + zeros(if used < width {
        (width - used) as nat
    } else {
        0
    }) + body
}

/// `n` in decimal, with leading zeros up to a width of `width`.
pub fn to_padded(n: i64, width: usize) -> (r: String)
    requires
        n > i64::MIN,
    ensures
        r@ == padded(n as int, width as nat),
{
    let neg = n < 0;
    let body = to_decimal(if neg {
        (-n) as u64
    } else {
        n as u64
    });
    let mut r = String::new();
    let mut used: usize = body.as_str().unicode_len();
    if neg {
        r.push('-');
        used = if used == usize::MAX {
            used
        } else {
            used + 1
        };
    }
    let ghost sign = r@;
    assert(sign =~= if n < 0 {
        seq!['-']
    } else {
        Seq::empty()
    });
    let mut k: usize = 0;
    assert(zeros(0) =~= Seq::empty());
    while used < width
        invariant
            r@ == sign + zeros(k as nat),
            used - k == sign.len() + body@.len() || used >= width,
            used - k == sign.len() + body@.len() || (k == 0 && sign.len() + body@.len() >= width),
            used <= width || k == 0,
            k <= used,
        decreases width - used,
    {
        r.push('0');
        assert(zeros(k as nat).push('0') =~= zeros((k + 1) as nat));
        assert((sign + zeros(k as nat)).push('0') =~= sign + zeros(k as nat).push('0'));
        used += 1;
        k += 1;
    }
    r.append(body.as_str());
    r
}

// ---- Joining -------------------------------------------------------------

/// The parts, one after another, with `sep` between them.
pub open spec fn joined(parts: Seq<Seq<char>>, sep: Seq<char>) -> Seq<char>
    decreases parts.len(),
{
    if parts.len() == 0 {
        Seq::empty()
    } else if parts.len() == 1 {
        parts[0]
    } else {
        joined(parts.drop_last(), sep) + sep + parts.last()
    }
}

/// The parts, one after another, with `sep` between them.
pub fn join(parts: &Vec<String>, sep: &str) -> (r: String)
    ensures
        r@ == joined(views(parts@), sep@),
{
    assert(parts@.skip(0) =~= parts@);
    join_from(parts, 0, sep)
}

/// The parts from `lo` on, one after another, with `sep` between them.
pub fn join_from(parts: &Vec<String>, lo: usize, sep: &str) -> (r: String)
    requires
        lo <= parts@.len(),
    ensures
        r@ == joined(views(parts@.skip(lo as int)), sep@),
{
    let mut r = String::new();
    let mut i: usize = lo;
    let ghost all = parts@.skip(lo as int);
    assert(views(all.take(0)) =~= Seq::empty());
    while i < parts.len()
        invariant
            lo <= i <= parts@.len(),
            all == parts@.skip(lo as int),
            r@ == joined(views(all.take(i - lo)), sep@),
        decreases parts@.len() - i,
    {
        proof {
            lemma_views_take(all, i - lo);
            assert(views(all.take(i - lo + 1)).drop_last() =~= views(all.take(i - lo)));
        }
        if i > lo {
            r.append(sep);
        }
        r.append(parts[i].as_str());
        i += 1;
        if i == lo + 1 {
            assert(r@ =~= all[0]@);
        }
    }
    assert(all.take(i - lo) =~= all);
    r
}

// ---- Order ---------------------------------------------------------------

/// The order of strings by their characters' code points, first difference
/// first. UTF-8 keeps it: the encoded bytes compare the same way.
pub open spec fn before(a: Seq<char>, b: Seq<char>) -> bool
    decreases a.len(),
{
    if b.len() == 0 {
        false
    } else if a.len() == 0 {
        true
    } else if a[0] == b[0] {
        before(a.drop_first(), b.drop_first())
    } else {
        a[0] < b[0]
    }
}

/// The order of two strings is that of their beginnings, where these are of one
/// length and differ; and that of what follows, where they do not.
pub proof fn lemma_before_prefix(a: Seq<char>, b: Seq<char>, x: Seq<char>, y: Seq<char>)
    requires
        a.len() == b.len(),
    ensures
        before(a, b) ==> before(a + x, b + y),
        a == b ==> before(a + x, b + y) == before(x, y),
    decreases a.len(),
{
    if a.len() == 0 {
        assert(a + x =~= x);
        assert(b + y =~= y);
    } else {
        assert((a + x)[0] == a[0] && (b + y)[0] == b[0]);
        assert((a + x).drop_first() =~= a.drop_first() + x);
        assert((b + y).drop_first() =~= b.drop_first() + y);
        lemma_before_prefix(a.drop_first(), b.drop_first(), x, y);
    }
}

proof fn lemma_first_difference(a: Seq<char>, b: Seq<char>, k: int)
    requires
        0 <= k < a.len(),
        k < b.len(),
        forall|i: int| 0 <= i < k ==> a[i] == b[i],
        a[k] < b[k],
    ensures
        before(a, b),
    decreases k,
{
    if k > 0 {
        assert forall|i: int| 0 <= i < k - 1 implies a.drop_first()[i] == b.drop_first()[i] by {
            assert(a[i + 1] == b[i + 1]);
        }
        lemma_first_difference(a.drop_first(), b.drop_first(), k - 1);
    }
}

/// Two digits.
spec fn two(n: int) -> Seq<char> {
    seq![digit_char((n / 10) as nat), digit_char((n % 10) as nat)]
}

/// Four digits.
spec fn four(n: int) -> Seq<char> {
    seq![
        digit_char((n / 1000) as nat),
        digit_char((n / 100 % 10) as nat),
        digit_char((n / 10 % 10) as nat),
        digit_char((n % 10) as nat),
    ]
}

proof fn lemma_two_digits(n: int)
    requires
        0 <= n < 100,
    ensures
        padded(n, 2) == two(n),
{
    reveal_with_fuel(decimal, 3);
    assert(padded(n, 2) =~= two(n));
}

proof fn lemma_four_digits(n: int)
    requires
        0 <= n < 10_000,
    ensures
        padded(n, 4) == four(n),
{
    reveal_with_fuel(decimal, 5);
    assert(padded(n, 4) =~= four(n));
}

proof fn lemma_digits_in_order(m: nat, n: nat)
    requires
        m < n < 10,
    ensures
        digit_char(m) < digit_char(n),
{
}

proof fn lemma_two_in_order(m: int, n: int)
    requires
        0 <= m < n < 100,
    ensures
        before(two(m), two(n)),
{
    if m / 10 < n / 10 {
        lemma_digits_in_order((m / 10) as nat, (n / 10) as nat);
        lemma_first_difference(two(m), two(n), 0);
    } else {
        assert(m / 10 == n / 10);
        lemma_digits_in_order((m % 10) as nat, (n % 10) as nat);
        lemma_first_difference(two(m), two(n), 1);
    }
}

proof fn lemma_four_in_order(m: int, n: int)
    requires
        0 <= m < n < 10_000,
    ensures
        before(four(m), four(n)),
{
    if m / 1000 < n / 1000 {
        lemma_digits_in_order((m / 1000) as nat, (n / 1000) as nat);
        lemma_first_difference(four(m), four(n), 0);
    } else if m / 100 < n / 100 {
        assert(m / 1000 == n / 1000);
        lemma_digits_in_order((m / 100 % 10) as nat, (n / 100 % 10) as nat);
        lemma_first_difference(four(m), four(n), 1);
    } else if m / 10 < n / 10 {
        assert(m / 100 == n / 100);
        assert(m / 1000 == n / 1000);
        lemma_digits_in_order((m / 10 % 10) as nat, (n / 10 % 10) as nat);
        lemma_first_difference(four(m), four(n), 2);
    } else {
        assert(m / 10 == n / 10);
        assert(m / 100 == n / 100);
        assert(m / 1000 == n / 1000);
        lemma_digits_in_order((m % 10) as nat, (n % 10) as nat);
        lemma_first_difference(four(m), four(n), 3);
    }
}

/// Numbers of two digits, or of four, are in order as texts.
pub proof fn lemma_padded_in_order(m: int, n: int, width: nat)
    requires
        0 <= m < n,
        width == 2 && n < 100 || width == 4 && n < 10_000,
    ensures
        before(padded(m, width), padded(n, width)),
{
    if width == 2 {
        lemma_two_digits(m);
        lemma_two_digits(n);
        lemma_two_in_order(m, n);
    } else {
        lemma_four_digits(m);
        lemma_four_digits(n);
        lemma_four_in_order(m, n);
    }
}

/// A number of at most two digits takes two places, one of at most four takes
/// four.
pub proof fn lemma_padded_len(n: int)
    ensures
        0 <= n < 100 ==> padded(n, 2).len() == 2,
        0 <= n < 10_000 ==> padded(n, 4).len() == 4,
{
    if 0 <= n < 100 {
        lemma_two_digits(n);
    }
    if 0 <= n < 10_000 {
        lemma_four_digits(n);
    }
}

/// Of two different strings exactly one comes before the other.
pub proof fn before_is_total(a: Seq<char>, b: Seq<char>)
    ensures
        a == b ==> !before(a, b),
        a != b ==> before(a, b) != before(b, a),
    decreases a.len(),
{
    if a.len() > 0 && b.len() > 0 {
        if a[0] == b[0] {
            before_is_total(a.drop_first(), b.drop_first());
            if a.drop_first() == b.drop_first() {
                assert(a =~= seq![a[0]] + a.drop_first());
                assert(b =~= seq![b[0]] + b.drop_first());
            }
        }
    } else if a.len() == 0 && b.len() == 0 {
        assert(a =~= b);
    }
}

pub proof fn before_is_transitive(a: Seq<char>, b: Seq<char>, c: Seq<char>)
    requires
        before(a, b),
        before(b, c),
    ensures
        before(a, c),
    decreases a.len(),
{
    if a.len() > 0 && a[0] == b[0] && b[0] == c[0] {
        before_is_transitive(a.drop_first(), b.drop_first(), c.drop_first());
    }
}

/// Whether `a` comes before `b`.
pub fn comes_before(a: &str, b: &str) -> (r: bool)
    ensures
        r == before(a@, b@),
{
    let x = chars_of(a);
    let y = chars_of(b);
    let mut i: usize = 0;
    assert(x@.skip(0) =~= x@);
    assert(y@.skip(0) =~= y@);
    while i < x.len() && i < y.len() && x[i] == y[i]
        invariant
            i <= x@.len(),
            i <= y@.len(),
            before(x@, y@) == before(x@.skip(i as int), y@.skip(i as int)),
        decreases x@.len() - i,
    {
        assert(x@.skip(i as int).drop_first() =~= x@.skip(i + 1));
        assert(y@.skip(i as int).drop_first() =~= y@.skip(i + 1));
        i += 1;
    }
    if i == y.len() {
        false
    } else if i == x.len() {
        true
    } else {
        x[i] < y[i]
    }
}

/// Quoted texts in square brackets.
pub open spec fn quoted_list(parts: Seq<Seq<char>>) -> Seq<char> {
    "["@ + joined(parts.map_values(|p: Seq<char>| quoted(p)), ", "@) + "]"@
}

/// Quoted texts in square brackets.
pub fn quote_list(parts: &Vec<String>) -> (r: String)
    ensures
        r@ == quoted_list(views(parts@)),
{
    let ghost all = views(parts@).map_values(|p: Seq<char>| quoted(p));
    let mut out: Vec<String> = Vec::new();
    let mut i: usize = 0;
    assert(views(out@) =~= all.take(0));
    while i < parts.len()
        invariant
            i <= parts@.len(),
            all == views(parts@).map_values(|p: Seq<char>| quoted(p)),
            views(out@) == all.take(i as int),
        decreases parts@.len() - i,
    {
        let q = quote(parts[i].as_str());
        proof {
            lemma_views_push(out@, q);
        }
        assert(all.take(i + 1) =~= all.take(i as int).push(all[i as int]));
        out.push(q);
        i += 1;
    }
    assert(all.take(i as int) =~= all);
    "[".to_string().concat(join(&out, ", ").as_str()).concat("]")
}

/// An optional text the way `{:?}` shows it.
pub open spec fn quoted_option(o: Option<Seq<char>>) -> Seq<char> {
    match o {
        Some(s) => "Some("@ + quoted(s) + ")"@,
        None => "None"@,
    }
}

/// An optional text the way `{:?}` shows it.
pub fn quote_option(o: &Option<String>) -> (r: String)
    ensures
        r@ == quoted_option(opt_view(*o)),
{
    match o {
        Some(s) => "Some(".to_string().concat(quote(s.as_str()).as_str()).concat(")"),
        None => "None".to_string(),
    }
}

// ---- What holds of texts -------------------------------------------------

/// Blanks, tabs and line ends are white space; no other printable character of
/// ASCII is.
pub proof fn white_space_is_white(c: char)
    ensures
        space(' ') && space('\t') && space('\n') && space('\r'),
        '!' <= c <= '~' ==> !space(c),
{
}

/// Trimming takes white space away at both ends, all of it, and nothing else.
pub proof fn trimming_takes_space_only(s: Seq<char>)
    ensures
        exists|i: int, j: int|
            {
                &&& 0 <= i <= j <= s.len()
                &&& trimmed(s) == #[trigger] s.subrange(i, j)
                &&& forall|k: int| 0 <= k < i || j <= k < s.len() ==> space(#[trigger] s[k])
            },
        trimmed(s).len() > 0 ==> !space(trimmed(s)[0]) && !space(trimmed(s).last()),
{
    lemma_trim_start(s);
    let t = trim_start(s);
    lemma_trim_end(t);
    let i = choose|i: int|
        0 <= i <= s.len() && t == #[trigger] s.skip(i) && forall|k: int|
            0 <= k < i ==> space(#[trigger] s[k]);
    let n = choose|n: int|
        0 <= n <= t.len() && trim_end(t) == #[trigger] t.take(n) && forall|k: int|
            n <= k < t.len() ==> space(#[trigger] t[k]);
    assert(trimmed(s) =~= s.subrange(i, i + n));
    assert forall|k: int| 0 <= k < i || i + n <= k < s.len() implies space(#[trigger] s[k]) by {
        if k >= i + n {
            assert(t[k - i] == s[k]);
        }
    }
    if trimmed(s).len() > 0 {
        assert(trimmed(s)[0] == t[0]);
    }
}

proof fn lemma_trim_start(s: Seq<char>)
    ensures
        exists|i: int|
            0 <= i <= s.len() && trim_start(s) == #[trigger] s.skip(i) && forall|k: int|
                0 <= k < i ==> space(#[trigger] s[k]),
        trim_start(s).len() > 0 ==> !space(trim_start(s)[0]),
    decreases s.len(),
{
    if s.len() > 0 && space(s[0]) {
        let rest = s.drop_first();
        lemma_trim_start(rest);
        let i = choose|i: int|
            0 <= i <= rest.len() && trim_start(rest) == #[trigger] rest.skip(i) && forall|k: int|
                0 <= k < i ==> space(#[trigger] rest[k]);
        assert(rest.skip(i) =~= s.skip(i + 1));
        assert forall|k: int| 0 <= k < i + 1 implies space(#[trigger] s[k]) by {
            if k > 0 {
                assert(rest[k - 1] == s[k]);
            }
        }
    } else {
        assert(s.skip(0) =~= s);
    }
}

proof fn lemma_trim_end(s: Seq<char>)
    ensures
        exists|n: int|
            0 <= n <= s.len() && trim_end(s) == #[trigger] s.take(n) && forall|k: int|
                n <= k < s.len() ==> space(#[trigger] s[k]),
        trim_end(s).len() > 0 ==> !space(trim_end(s).last()),
    decreases s.len(),
{
    if s.len() > 0 && space(s.last()) {
        let rest = s.drop_last();
        lemma_trim_end(rest);
        let n = choose|n: int|
            0 <= n <= rest.len() && trim_end(rest) == #[trigger] rest.take(n) && forall|k: int|
                n <= k < rest.len() ==> space(#[trigger] rest[k]);
        assert(rest.take(n) =~= s.take(n));
        assert forall|k: int| n <= k < s.len() implies space(#[trigger] s[k]) by {
            if k < rest.len() {
                assert(rest[k] == s[k]);
            }
        }
    } else {
        assert(s.take(s.len() as int) =~= s);
    }
}

/// A text that neither begins nor ends with white space is left as it is.
pub proof fn trimming_spares_bare_texts(s: Seq<char>)
    requires
        s.len() > 0 ==> !space(s[0]) && !space(s.last()),
    ensures
        trimmed(s) == s,
{
}

proof fn lemma_word_before_space(w: Seq<char>, rest: Seq<char>)
    requires
        forall|k: int| 0 <= k < w.len() ==> !space(#[trigger] w[k]),
        rest.len() > 0 ==> space(rest[0]),
    ensures
        word_len(w + rest) == w.len(),
    decreases w.len(),
{
    if w.len() > 0 {
        assert((w + rest)[0] == w[0]);
        assert((w + rest).drop_first() =~= w.drop_first() + rest);
        assert forall|k: int| 0 <= k < w.drop_first().len() implies !space(
            #[trigger] w.drop_first()[k],
        ) by {
            assert(w.drop_first()[k] == w[k + 1]);
        }
        lemma_word_before_space(w.drop_first(), rest);
    } else {
        assert(w + rest =~= rest);
    }
}

/// The words of a text are what stands between white space: a text without any
/// is one word, and white space parts the words before it from those after it.
pub proof fn words_stand_between_spaces(w: Seq<char>, c: char, rest: Seq<char>)
    requires
        space(c),
        forall|k: int| 0 <= k < w.len() ==> !space(#[trigger] w[k]),
    ensures
        words(w) == (if w.len() == 0 {
            Seq::empty()
        } else {
            seq![w]
        }),
        words(w + seq![c] + rest) == words(w) + words(rest),
{
    let none = Seq::<char>::empty();
    let tail = seq![c] + rest;
    assert(w + seq![c] + rest =~= w + tail);
    assert(tail.drop_first() =~= rest);
    assert(words(tail) == words(rest));
    lemma_word_before_space(w, none);
    lemma_word_before_space(w, tail);
    assert(w + none =~= w);
    if w.len() > 0 {
        assert(w.skip(w.len() as int) =~= none);
        assert(w.take(w.len() as int) =~= w);
        assert(words(none) =~= Seq::<Seq<char>>::empty());
        assert(words(w) == seq![w.take(w.len() as int)] + words(w.skip(w.len() as int)));
        assert(words(w) =~= seq![w]);
        assert((w + tail)[0] == w[0]);
        assert((w + tail).take(w.len() as int) =~= w);
        assert((w + tail).skip(w.len() as int) =~= tail);
    } else {
        assert(w + tail =~= tail);
    }
    assert(words(w + seq![c] + rest) =~= words(w) + words(rest));
}

/// A text begins with another exactly when it is that one with something behind.
pub proof fn a_beginning_is_a_part(s: Seq<char>, p: Seq<char>, rest: Seq<char>)
    ensures
        begins_with(p + rest, p),
        begins_with(s, p) ==> s == p + s.skip(p.len() as int),
{
    assert((p + rest).take(p.len() as int) =~= p);
    if begins_with(s, p) {
        assert(s =~= s.take(p.len() as int) + s.skip(p.len() as int));
    }
}

/// A text occurs in another exactly when something stands before and behind it
/// there, if only nothing.
pub proof fn an_occurrence_is_a_part(t: Seq<char>, s: Seq<char>, a: Seq<char>, b: Seq<char>)
    ensures
        occurs_in(t, a + t + b),
        occurs_in(t, s) ==> exists|x: Seq<char>, y: Seq<char>| s == #[trigger] (x + t + y),
{
    let all = a + t + b;
    assert(all.skip(a.len() as int) =~= t + b);
    a_beginning_is_a_part(all, t, b);
    assert(begins_with(all.skip(a.len() as int), t));
    if occurs_in(t, s) {
        let i = choose|i: int| 0 <= i <= s.len() && #[trigger] begins_with(s.skip(i), t);
        a_beginning_is_a_part(s.skip(i), t, b);
        assert(s =~= s.take(i) + t + s.skip(i).skip(t.len() as int));
    }
}

/// Leading zeros do not change a number, and what holds anything but digits, a
/// sign before them aside, is none.
pub proof fn numbers_are_made_of_digits(s: Seq<char>, max: nat, k: int)
    ensures
        number(seq!['0'] + s) == number(s),
        0 <= k < s.len() && !('0' <= s[k] <= '9') && !(k == 0 && s[0] == '+') ==> unsigned(s, max)
            is None,
        s.len() == 0 ==> unsigned(s, max) is None,
        unsigned(s, max) matches Some(n) ==> n <= max,
        all_digits(s) && number(s) <= max ==> unsigned(s, max) == Some(number(s)),
    decreases s.len(),
{
    if s.len() > 0 {
        numbers_are_made_of_digits(s.drop_last(), max, 0);
        assert((seq!['0'] + s).drop_last() =~= seq!['0'] + s.drop_last());
    } else {
        assert((seq!['0'] + s).drop_last() =~= Seq::<char>::empty());
        assert((seq!['0'] + s).last() == '0');
        reveal_with_fuel(number, 2);
    }
    if 0 < k < s.len() && s[0] == '+' {
        assert(s.skip(1)[k - 1] == s[k]);
    }
}

/// Of two texts the one with the smaller character at the first place where they
/// differ comes before the other; the beginning of a text comes before it.
pub proof fn the_first_difference_decides(a: Seq<char>, b: Seq<char>, k: int)
    requires
        0 <= k <= a.len(),
        k < b.len(),
        forall|i: int| 0 <= i < k ==> a[i] == b[i],
        k < a.len() ==> a[k] < b[k],
    ensures
        before(a, b),
        !before(b, a),
    decreases k,
{
    if k > 0 {
        assert forall|i: int| 0 <= i < k - 1 implies a.drop_first()[i] == b.drop_first()[i] by {
            assert(a[i + 1] == b[i + 1]);
        }
        the_first_difference_decides(a.drop_first(), b.drop_first(), k - 1);
    }
}

/// A list is joined part by part, with the separator between two of them only.
pub proof fn joining_goes_part_by_part(parts: Seq<Seq<char>>, sep: Seq<char>, last: Seq<char>)
    ensures
        joined(parts.push(last), sep) == (if parts.len() == 0 {
            last
        } else {
            joined(parts, sep) + sep + last
        }),
{
    assert(parts.push(last).drop_last() =~= parts);
}

/// A line feed ends a line and is no part of it; what follows is read on.
pub proof fn lines_end_at_line_feeds(line: Seq<char>, rest: Seq<char>)
    requires
        forall|k: int| 0 <= k < line.len() ==> #[trigger] line[k] != '\n',
        line.len() > 0 ==> line.last() != '\r',
    ensures
        lines(line + seq!['\n'] + rest) == seq![line] + lines(rest),
        lines(line) == (if line.len() == 0 {
            Seq::empty()
        } else {
            seq![line]
        }),
{
    let all = line + seq!['\n'] + rest;
    let n = line.len() as int;
    lemma_index_of_char(all, '\n');
    lemma_index_of_char(line, '\n');
    let i = index_of_char(all, '\n') as int;
    assert(all[n] == '\n');
    assert(i == n) by {
        if i < n {
            assert(all[i] == line[i]);
        }
    }
    assert(all.take(n) =~= line);
    assert(all.skip(n + 1) =~= rest);
    assert(index_of_char(line, '\n') == line.len()) by {
        let j = index_of_char(line, '\n') as int;
        if j < line.len() {
            assert(line[j] == '\n');
        }
    }
}

/// Each further digit multiplies a number by ten and adds its own value.
pub proof fn a_number_counts_in_tens(s: Seq<char>, c: char)
    requires
        '0' <= c <= '9',
    ensures
        number(s.push(c)) == 10 * number(s) + (c as int - '0' as int),
        number(Seq::empty()) == 0,
        all_digits(seq![c]),
        all_digits(s) ==> all_digits(s.push(c)),
{
    assert(s.push(c).drop_last() =~= s);
}

/// The characters behind strings are taken one for one.
pub proof fn views_are_one_for_one(v: Seq<String>, s: String, i: int)
    ensures
        views(v).len() == v.len(),
        0 <= i < v.len() ==> views(v)[i] == v[i]@,
        opt_view(Some(s)) == Some(s@),
        opt_view(None) is None,
{
}

/// A minus sign makes a number negative; without one it is read as an unsigned
/// number is.
pub proof fn a_minus_makes_a_number_negative(n: nat)
    ensures
        n <= 0x8000_0000 ==> signed(seq!['-'] + decimal(n)) == Some(-(n as int)),
        n <= 0x7fff_ffff ==> signed(decimal(n)) == Some(n as int),
        n <= 0x7fff_ffff ==> signed(seq!['+'] + decimal(n)) == Some(n as int),
        n > 0x8000_0000 ==> signed(seq!['-'] + decimal(n)) is None,
        n > 0x7fff_ffff ==> signed(decimal(n)) is None,
{
    let d = decimal(n);
    decimal_reads_back(n);
    assert((seq!['-'] + d).skip(1) =~= d);
    assert((seq!['+'] + d).skip(1) =~= d);
    assert(digit(d[0]));
}

/// Padding puts zeros before a number, behind its sign, up to the width, and does
/// not change what it is.
pub proof fn padding_keeps_the_number(n: nat, width: nat)
    ensures
        ({
            let p = padded(n as int, width);
            let d = decimal(n);
            &&& d.len() >= width ==> p == d
            &&& d.len() < width ==> p.len() == width && p.skip(width - d.len()) == d && (forall|
                i: int,
            |
                0 <= i < width - d.len() ==> p[i] == '0')
            &&& number(p) == n
        }),
        n > 0 ==> padded(-(n as int), width)[0] == '-',
{
    let d = decimal(n);
    let p = padded(n as int, width);
    decimal_reads_back(n);
    let z: nat = if d.len() < width {
        (width - d.len()) as nat
    } else {
        0
    };
    assert(p =~= zeros(z) + d);
    assert(d.len() < width ==> p.skip(width - d.len()) =~= d);
    lemma_zeros_before(z, d);
}

proof fn lemma_zeros_before(z: nat, s: Seq<char>)
    ensures
        number(zeros(z) + s) == number(s),
    decreases z,
{
    if z > 0 {
        lemma_zeros_before((z - 1) as nat, s);
        assert(zeros(z) + s =~= seq!['0'] + (zeros((z - 1) as nat) + s));
        numbers_are_made_of_digits(zeros((z - 1) as nat) + s, 0, 0);
    } else {
        assert(zeros(z) + s =~= s);
    }
}

/// Taking a character from the end takes it as often as it stands there, and
/// nothing else.
pub proof fn a_suffix_goes_as_often_as_it_stands(s: Seq<char>, c: char)
    ensures
        ({
            let r = without_suffix_char(s, c);
            &&& r.len() <= s.len()
            &&& r == s.take(r.len() as int)
            &&& r.len() > 0 ==> r.last() != c
            &&& forall|i: int| r.len() <= i < s.len() ==> s[i] == c
        }),
    decreases s.len(),
{
    let r = without_suffix_char(s, c);
    if s.len() > 0 && s.last() == c {
        let t = s.drop_last();
        a_suffix_goes_as_often_as_it_stands(t, c);
        assert(r =~= s.take(r.len() as int));
        assert forall|i: int| r.len() <= i < s.len() implies s[i] == c by {
            if i < t.len() {
                assert(t[i] == s[i]);
            }
        }
    } else {
        assert(s.take(s.len() as int) =~= s);
    }
}

/// A carriage return before a line feed belongs to the end of the line; without a
/// line feed behind it, it stays.
pub proof fn a_carriage_return_belongs_to_the_line_end(line: Seq<char>, rest: Seq<char>)
    requires
        forall|i: int| 0 <= i < line.len() ==> line[i] != '\n',
    ensures
        lines(line + seq!['\r', '\n'] + rest) == seq![line] + lines(rest),
        lines(line.push('\r')) == seq![line.push('\r')],
{
    let t = line.push('\r');
    let s = line + seq!['\r', '\n'] + rest;
    let n = t.len() as int;
    lemma_index_of_char(s, '\n');
    assert(s[n] == '\n');
    assert forall|i: int| 0 <= i < n implies s[i] != '\n' by {
        if i < line.len() {
            assert(s[i] == line[i]);
        } else {
            assert(s[i] == '\r');
        }
    }
    assert(index_of_char(s, '\n') == n);
    assert(s.take(n) =~= t);
    assert(s.skip(n + 1) =~= rest);
    assert(without_cr(t) =~= line);
    lemma_index_of_char(t, '\n');
    assert forall|i: int| 0 <= i < n implies t[i] != '\n' by {
        if i < line.len() {
            assert(t[i] == line[i]);
        }
    }
    assert(index_of_char(t, '\n') == t.len());
}

/// A list of texts is written in brackets and with commas, a text that may be
/// missing with its name.
pub proof fn quoting_shows_what_is_there(parts: Seq<Seq<char>>, s: Seq<char>)
    ensures
        quoted_option(Some(s)) == "Some("@ + quoted(s) + ")"@,
        quoted_option(None) == "None"@,
        quoted_list(parts) == "["@ + joined(
            Seq::new(parts.len(), |i: int| quoted(parts[i])),
            ", "@,
        ) + "]"@,
{
    assert(parts.map_values(|p: Seq<char>| quoted(p)) =~= Seq::new(
        parts.len(),
        |i: int| quoted(parts[i]),
    ));
}

} // verus!
