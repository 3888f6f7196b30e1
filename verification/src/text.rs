//! Character and string helpers shared by the rest of the library.
use vstd::prelude::*;

verus! {

/// Unicode `White_Space`: the characters that `char::is_whitespace` accepts.
pub open spec fn is_ws(c: char) -> bool {
    let u = c as u32;
    ||| 0x09 <= u <= 0x0D
    ||| u == 0x20
    ||| u == 0x85
    ||| u == 0xA0
    ||| u == 0x1680
    ||| 0x2000 <= u <= 0x200A
    ||| u == 0x2028
    ||| u == 0x2029
    ||| u == 0x202F
    ||| u == 0x205F
    ||| u == 0x3000
}

/// Executable whitespace test.
pub fn is_whitespace(c: char) -> (b: bool)
    ensures
        b == is_ws(c),
{
    let u = c as u32;
    (0x09 <= u && u <= 0x0D) || u == 0x20 || u == 0x85 || u == 0xA0 || u == 0x1680 || (0x2000
        <= u && u <= 0x200A) || u == 0x2028 || u == 0x2029 || u == 0x202F || u == 0x205F || u
        == 0x3000
}

/// `String::push`: appends one character at the end.
#[verifier::external_body]
pub fn push_char(s: &mut String, c: char)
    ensures
        final(s)@ == old(s)@.push(c),
{
    s.push(c);
}

/// The characters of a string slice, in order.
pub fn chars_of(s: &str) -> (v: Vec<char>)
    ensures
        v@ == s@,
{
    let mut v: Vec<char> = Vec::new();
    for c in it: s.chars()
        invariant
            v@ == it.seq().take(it.index() as int),
            it.seq() == s@,
    {
        v.push(c);
    }
    assert(v@ == s@);
    v
}

} // verus!

verus! {

/// `s` with its leading whitespace removed.
pub open spec fn trim_start(s: Seq<char>) -> Seq<char>
    decreases s.len(),
{
    if s.len() > 0 && is_ws(s[0]) {
        trim_start(s.drop_first())
    } else {
        s
    }
}

/// `s` with its trailing whitespace removed.
pub open spec fn trim_end(s: Seq<char>) -> Seq<char>
    decreases s.len(),
{
    if s.len() > 0 && is_ws(s.last()) {
        trim_end(s.drop_last())
    } else {
        s
    }
}

/// `str::trim`: whitespace removed at both ends.
pub open spec fn trim(s: Seq<char>) -> Seq<char> {
    trim_end(trim_start(s))
}

/// `str::trim_start_matches` with a non-empty pattern: every leading copy of
/// `p` removed, one after the other.
pub open spec fn strip_leading(s: Seq<char>, p: Seq<char>) -> Seq<char>
    decreases s.len(),
{
    if 0 < p.len() <= s.len() && s.subrange(0, p.len() as int) == p {
        strip_leading(s.subrange(p.len() as int, s.len() as int), p)
    } else {
        s
    }
}

/// `str::trim_end_matches` with a non-empty pattern: every trailing copy of
/// `p` removed, one after the other.
pub open spec fn strip_trailing(s: Seq<char>, p: Seq<char>) -> Seq<char>
    decreases s.len(),
{
    if 0 < p.len() <= s.len() && s.subrange(s.len() - p.len(), s.len() as int) == p {
        strip_trailing(s.subrange(0, s.len() - p.len()), p)
    } else {
        s
    }
}

/// The characters `v[lo..hi]` as a new string.
pub fn string_of_range(v: &Vec<char>, lo: usize, hi: usize) -> (r: String)
    requires
        lo <= hi <= v.len(),
    ensures
        r@ == v@.subrange(lo as int, hi as int),
{
    let mut r = String::new();
    let mut i = lo;
    while i < hi
        invariant
            lo <= i <= hi <= v.len(),
            r@ == v@.subrange(lo as int, i as int),
        decreases hi - i,
    {
        push_char(&mut r, v[i]);
        assert(v@.subrange(lo as int, i + 1) == v@.subrange(lo as int, i as int).push(v@[i as int]));
        i = i + 1;
    }
    r
}

/// First position at or after `lo` that ends the leading whitespace of `v[lo..hi]`.
pub fn skip_ws_front(v: &Vec<char>, lo: usize, hi: usize) -> (r: usize)
    requires
        lo <= hi <= v.len(),
    ensures
        lo <= r <= hi,
        v@.subrange(r as int, hi as int) == trim_start(v@.subrange(lo as int, hi as int)),
{
    let mut i = lo;
    while i < hi && is_whitespace(v[i])
        invariant
            lo <= i <= hi <= v.len(),
            trim_start(v@.subrange(i as int, hi as int)) == trim_start(
                v@.subrange(lo as int, hi as int),
            ),
        decreases hi - i,
    {
        assert(v@.subrange(i as int, hi as int).drop_first() == v@.subrange(i + 1, hi as int));
        i = i + 1;
    }
    i
}

/// End position of `v[lo..hi]` once its trailing whitespace is dropped.
pub fn skip_ws_back(v: &Vec<char>, lo: usize, hi: usize) -> (r: usize)
    requires
        lo <= hi <= v.len(),
    ensures
        lo <= r <= hi,
        v@.subrange(lo as int, r as int) == trim_end(v@.subrange(lo as int, hi as int)),
{
    let mut j = hi;
    while j > lo && is_whitespace(v[j - 1])
        invariant
            lo <= j <= hi <= v.len(),
            trim_end(v@.subrange(lo as int, j as int)) == trim_end(
                v@.subrange(lo as int, hi as int),
            ),
        decreases j - lo,
    {
        assert(v@.subrange(lo as int, j as int).drop_last() == v@.subrange(lo as int, j - 1));
        j = j - 1;
    }
    j
}

/// Whether `v[at..at + p.len()]` is `p`.
pub fn matches_at(v: &Vec<char>, at: usize, hi: usize, p: &Vec<char>) -> (b: bool)
    requires
        at <= hi <= v.len(),
    ensures
        b == (p.len() <= hi - at && v@.subrange(at as int, at + p.len()) == p@),
{
    if p.len() > hi - at {
        return false;
    }
    let mut k: usize = 0;
    while k < p.len()
        invariant
            at + p.len() <= hi <= v.len(),
            k <= p.len(),
            forall|m: int| 0 <= m < k ==> v@[at + m] == p@[m],
        decreases p.len() - k,
    {
        if v[at + k] != p[k] {
            assert(v@.subrange(at as int, at + p.len())[k as int] != p@[k as int]);
            return false;
        }
        k = k + 1;
    }
    assert(v@.subrange(at as int, at + p.len()) == p@);
    true
}

/// Start of `v[lo..hi]` once every leading copy of `p` is dropped.
pub fn skip_prefix_all(v: &Vec<char>, lo: usize, hi: usize, p: &Vec<char>) -> (r: usize)
    requires
        lo <= hi <= v.len(),
        p.len() > 0,
    ensures
        lo <= r <= hi,
        v@.subrange(r as int, hi as int) == strip_leading(v@.subrange(lo as int, hi as int), p@),
{
    let mut i = lo;
    while matches_at(v, i, hi, p)
        invariant
            lo <= i <= hi <= v.len(),
            p.len() > 0,
            strip_leading(v@.subrange(i as int, hi as int), p@) == strip_leading(
                v@.subrange(lo as int, hi as int),
                p@,
            ),
        decreases hi - i,
    {
        let ghost s = v@.subrange(i as int, hi as int);
        assert(s.subrange(0, p.len() as int) == v@.subrange(i as int, i + p.len()));
        assert(s.subrange(p.len() as int, s.len() as int) == v@.subrange(i + p.len(), hi as int));
        i = i + p.len();
    }
    let ghost s = v@.subrange(i as int, hi as int);
    assert(0 < p.len() <= s.len() ==> s.subrange(0, p.len() as int) == v@.subrange(
        i as int,
        i + p.len(),
    ));
    i
}

/// End of `v[lo..hi]` once every trailing copy of `p` is dropped.
pub fn skip_suffix_all(v: &Vec<char>, lo: usize, hi: usize, p: &Vec<char>) -> (r: usize)
    requires
        lo <= hi <= v.len(),
        p.len() > 0,
    ensures
        lo <= r <= hi,
        v@.subrange(lo as int, r as int) == strip_trailing(v@.subrange(lo as int, hi as int), p@),
{
    let mut j = hi;
    while j - lo >= p.len() && matches_at(v, j - p.len(), j, p)
        invariant
            lo <= j <= hi <= v.len(),
            p.len() > 0,
            strip_trailing(v@.subrange(lo as int, j as int), p@) == strip_trailing(
                v@.subrange(lo as int, hi as int),
                p@,
            ),
        decreases j - lo,
    {
        let ghost s = v@.subrange(lo as int, j as int);
        assert(s.subrange(s.len() - p.len(), s.len() as int) == v@.subrange(j - p.len(), j as int));
        assert(s.subrange(0, s.len() - p.len()) == v@.subrange(lo as int, j - p.len()));
        j = j - p.len();
    }
    let ghost s = v@.subrange(lo as int, j as int);
    assert(0 < p.len() <= s.len() ==> s.subrange(s.len() - p.len(), s.len() as int) == v@.subrange(
        j - p.len(),
        j as int,
    ));
    j
}

} // verus!

verus! {

/// The ASCII digit for `d` (`d < 10`).
pub open spec fn digit_char(d: nat) -> char {
    (d + 48) as char
}

/// Decimal notation of `n`, without sign or leading zeros, as `Display` writes it.
pub open spec fn decimal(n: nat) -> Seq<char>
    decreases n,
{
    if n < 10 {
        seq![digit_char(n)]
    } else {
        decimal(n / 10).push(digit_char(n % 10))
    }
}

/// Appends the decimal notation of `n` to `s`.
pub fn push_decimal(s: &mut String, n: u32)
    ensures
        final(s)@ == old(s)@ + decimal(n as nat),
    decreases n,
{
    if n >= 10 {
        push_decimal(s, n / 10);
    }
    let d: u8 = (n % 10) as u8;
    let c: char = (d + 48) as char;
    assert(c == digit_char((n % 10) as nat));
    push_char(s, c);
}

/// Appends `t` to `s`.
pub fn push_str(s: &mut String, t: &str)
    ensures
        final(s)@ == old(s)@ + t@,
{
    s.append(t);
}

/// Whether `p` occurs in `s` as a contiguous run.
pub open spec fn contains_run(s: Seq<char>, p: Seq<char>) -> bool {
    exists|i: int| 0 <= i && i + p.len() <= s.len() && #[trigger] s.subrange(i, i + p.len()) == p
}

/// `str::contains` with a string pattern.
pub fn contains_str(s: &str, p: &str) -> (b: bool)
    ensures
        b == contains_run(s@, p@),
{
    let v = chars_of(s);
    let pv = chars_of(p);
    if pv.len() > v.len() {
        return false;
    }
    let last = v.len() - pv.len();
    let mut i: usize = 0;
    loop
        invariant
            i <= last,
            last == v.len() - pv.len(),
            v@ == s@,
            pv@ == p@,
            forall|k: int| 0 <= k < i ==> #[trigger] v@.subrange(k, k + pv.len()) != pv@,
        ensures
            forall|k: int| 0 <= k <= last ==> #[trigger] v@.subrange(k, k + pv.len()) != pv@,
        decreases last - i,
    {
        if matches_at(&v, i, v.len(), &pv) {
            return true;
        }
        if i == last {
            break;
        }
        i = i + 1;
    }
    assert forall|k: int| 0 <= k && k + p@.len() <= s@.len() implies #[trigger] s@.subrange(
        k,
        k + p@.len(),
    ) != p@ by {
        assert(k <= last);
    }
    false
}

} // verus!

verus! {

/// Number of bytes that UTF-8 takes for `c` (`char::len_utf8`).
pub open spec fn utf8_width(c: char) -> nat {
    let u = c as u32;
    if u < 0x80 {
        1
    } else if u < 0x800 {
        2
    } else if u < 0x10000 {
        3
    } else {
        4
    }
}

/// Number of bytes of `s` in UTF-8, which is what `str::len` reports.
pub open spec fn byte_len(s: Seq<char>) -> nat
    decreases s.len(),
{
    if s.len() == 0 {
        0
    } else {
        byte_len(s.drop_last()) + utf8_width(s.last())
    }
}

/// Byte lengths add up over concatenation.
pub proof fn lemma_byte_len_concat(a: Seq<char>, b: Seq<char>)
    ensures
        byte_len(a + b) == byte_len(a) + byte_len(b),
    decreases b.len(),
{
    if b.len() > 0 {
        lemma_byte_len_concat(a, b.drop_last());
        assert((a + b).drop_last() == a + b.drop_last());
    } else {
        assert(a + b == a);
    }
}

/// Executable `char::len_utf8`.
pub fn char_width(c: char) -> (w: usize)
    ensures
        w == utf8_width(c),
{
    let u = c as u32;
    if u < 0x80 {
        1
    } else if u < 0x800 {
        2
    } else if u < 0x10000 {
        3
    } else {
        4
    }
}

/// Whether no character of `s` is whitespace.
pub open spec fn no_ws(s: Seq<char>) -> bool {
    forall|i: int| 0 <= i < s.len() ==> !is_ws(#[trigger] s[i])
}

/// The words found so far when reading `s` from the left, and the word
/// still being read.
pub open spec fn split_state(s: Seq<char>) -> (Seq<Seq<char>>, Seq<char>)
    decreases s.len(),
{
    if s.len() == 0 {
        (Seq::empty(), Seq::empty())
    } else {
        let (done, cur) = split_state(s.drop_last());
        let c = s.last();
        if is_ws(c) {
            if cur.len() > 0 {
                (done.push(cur), Seq::empty())
            } else {
                (done, cur)
            }
        } else {
            (done, cur.push(c))
        }
    }
}

/// `str::split_whitespace`: the maximal runs of non-whitespace characters
/// of `s`, in order.
pub open spec fn words(s: Seq<char>) -> Seq<Seq<char>> {
    let (done, cur) = split_state(s);
    if cur.len() > 0 {
        done.push(cur)
    } else {
        done
    }
}

/// Every word is non-empty and holds no whitespace.
pub open spec fn proper_words(ws: Seq<Seq<char>>) -> bool {
    forall|i: int| 0 <= i < ws.len() ==> #[trigger] ws[i].len() > 0 && no_ws(ws[i])
}

/// The words that reading produces are proper words.
pub proof fn lemma_split_state_proper(s: Seq<char>)
    ensures
        proper_words(split_state(s).0),
        no_ws(split_state(s).1),
    decreases s.len(),
{
    if s.len() > 0 {
        lemma_split_state_proper(s.drop_last());
    }
}

/// The words of any text are proper words.
pub proof fn lemma_words_proper(s: Seq<char>)
    ensures
        proper_words(words(s)),
{
    lemma_split_state_proper(s);
}

/// The views of a vector of character vectors.
pub open spec fn views(v: Seq<Vec<char>>) -> Seq<Seq<char>> {
    v.map_values(|x: Vec<char>| x@)
}

/// Splits a text into its whitespace-separated words.
pub fn split_words(v: &Vec<char>) -> (ws: Vec<Vec<char>>)
    ensures
        views(ws@) == words(v@),
{
    let mut done: Vec<Vec<char>> = Vec::new();
    let mut cur: Vec<char> = Vec::new();
    let mut i: usize = 0;
    while i < v.len()
        invariant
            i <= v.len(),
            (views(done@), cur@) == split_state(v@.take(i as int)),
        decreases v.len() - i,
    {
        let c = v[i];
        assert(v@.take(i + 1).drop_last() == v@.take(i as int));
        if is_whitespace(c) {
            if cur.len() > 0 {
                let w = cur;
                cur = Vec::new();
                done.push(w);
                assert(views(done@) == split_state(v@.take(i + 1)).0);
            }
        } else {
            cur.push(c);
        }
        i = i + 1;
    }
    assert(v@.take(i as int) == v@);
    if cur.len() > 0 {
        done.push(cur);
    }
    assert(views(done@) == words(v@));
    done
}

/// `items` joined with `sep` between each two of them (`[T]::join`).
pub open spec fn join_with(items: Seq<Seq<char>>, sep: char) -> Seq<char>
    decreases items.len(),
{
    if items.len() == 0 {
        Seq::empty()
    } else if items.len() == 1 {
        items[0]
    } else {
        join_with(items.drop_last(), sep) + seq![sep] + items.last()
    }
}

/// `line` with `'\r'` removed from its end, if it ends with one.
pub open spec fn strip_cr(line: Seq<char>) -> Seq<char> {
    if line.len() > 0 && line.last() == '\r' {
        line.drop_last()
    } else {
        line
    }
}

/// The lines ended so far when reading `s` from the left, and the line
/// still being read.
pub open spec fn line_state(s: Seq<char>) -> (Seq<Seq<char>>, Seq<char>)
    decreases s.len(),
{
    if s.len() == 0 {
        (Seq::empty(), Seq::empty())
    } else {
        let (done, cur) = line_state(s.drop_last());
        if s.last() == '\n' {
            (done.push(strip_cr(cur)), Seq::empty())
        } else {
            (done, cur.push(s.last()))
        }
    }
}

/// `str::lines`: the lines of `s`, split at `'\n'`, with a `'\r'` that
/// stands before the `'\n'` removed; a final line ending is not followed by
/// an empty line.
pub open spec fn text_lines(s: Seq<char>) -> Seq<Seq<char>> {
    let (done, cur) = line_state(s);
    if cur.len() > 0 {
        done.push(cur)
    } else {
        done
    }
}

/// Splits a text into its lines.
pub fn split_lines(v: &Vec<char>) -> (ls: Vec<Vec<char>>)
    ensures
        views(ls@) == text_lines(v@),
{
    let mut done: Vec<Vec<char>> = Vec::new();
    let mut cur: Vec<char> = Vec::new();
    let mut i: usize = 0;
    while i < v.len()
        invariant
            i <= v.len(),
            (views(done@), cur@) == line_state(v@.take(i as int)),
        decreases v.len() - i,
    {
        let c = v[i];
        assert(v@.take(i + 1).drop_last() == v@.take(i as int));
        if c == '\n' {
            let mut line = cur;
            cur = Vec::new();
            let n = line.len();
            if n > 0 && line[n - 1] == '\r' {
                line.pop();
            }
            done.push(line);
            assert(views(done@) == line_state(v@.take(i + 1)).0);
        } else {
            cur.push(c);
        }
        i = i + 1;
    }
    assert(v@.take(i as int) == v@);
    if cur.len() > 0 {
        done.push(cur);
    }
    assert(views(done@) == text_lines(v@));
    done
}

/// Appends the characters of `v` to `s`.
pub fn push_chars(s: &mut String, v: &Vec<char>)
    ensures
        final(s)@ == old(s)@ + v@,
{
    let mut i: usize = 0;
    while i < v.len()
        invariant
            i <= v.len(),
            s@ == old(s)@ + v@.take(i as int),
        decreases v.len() - i,
    {
        push_char(s, v[i]);
        assert(v@.take(i + 1) == v@.take(i as int).push(v@[i as int]));
        i = i + 1;
    }
    assert(v@.take(i as int) == v@);
}

/// Joins the first `count` items of `items` with `sep` between them.
pub fn join_first(items: &Vec<Vec<char>>, count: usize, sep: char) -> (r: String)
    requires
        count <= items.len(),
    ensures
        r@ == join_with(views(items@).take(count as int), sep),
{
    let ghost iv = views(items@);
    let mut r = String::new();
    let mut k: usize = 0;
    while k < count
        invariant
            k <= count <= items.len(),
            iv == views(items@),
            r@ == join_with(iv.take(k as int), sep),
        decreases count - k,
    {
        assert(iv.take(k + 1).drop_last() == iv.take(k as int));
        assert(iv.take(k + 1).last() == items@[k as int]@);
        if k > 0 {
            push_char(&mut r, sep);
        } else {
            assert(iv.take(0) == Seq::<Seq<char>>::empty());
        }
        push_chars(&mut r, &items[k]);
        k = k + 1;
    }
    r
}

} // verus!

verus! {

/// What `trim_start` leaves does not start with whitespace.
pub proof fn lemma_trim_start_clean(s: Seq<char>)
    ensures
        trim_start(s).len() == 0 || !is_ws(trim_start(s)[0]),
        trim_start(s).len() <= s.len(),
    decreases s.len(),
{
    if s.len() > 0 && is_ws(s[0]) {
        lemma_trim_start_clean(s.drop_first());
    }
}

/// What `trim_end` leaves does not end with whitespace, and it keeps a
/// first character that is not whitespace.
pub proof fn lemma_trim_end_clean(s: Seq<char>)
    ensures
        trim_end(s).len() == 0 || !is_ws(trim_end(s).last()),
        s.len() > 0 && !is_ws(s[0]) ==> trim_end(s).len() > 0 && trim_end(s)[0] == s[0],
    decreases s.len(),
{
    if s.len() > 0 && is_ws(s.last()) {
        lemma_trim_end_clean(s.drop_last());
        if s.len() > 0 && !is_ws(s[0]) {
            assert(s.len() > 1);
            assert(s.drop_last()[0] == s[0]);
        }
    }
}

/// `str::trim` leaves no whitespace at either end.
pub proof fn lemma_trim_clean(s: Seq<char>)
    ensures
        trim(s).len() == 0 || (!is_ws(trim(s)[0]) && !is_ws(trim(s).last())),
{
    lemma_trim_start_clean(s);
    lemma_trim_end_clean(trim_start(s));
}

/// After `strip_trailing`, the text no longer ends with the pattern.
pub proof fn lemma_strip_trailing_clean(s: Seq<char>, p: Seq<char>)
    requires
        p.len() > 0,
    ensures
        !(p.len() <= strip_trailing(s, p).len() && strip_trailing(s, p).subrange(
            strip_trailing(s, p).len() - p.len(),
            strip_trailing(s, p).len() as int,
        ) == p),
    decreases s.len(),
{
    if p.len() <= s.len() && s.subrange(s.len() - p.len(), s.len() as int) == p {
        lemma_strip_trailing_clean(s.subrange(0, s.len() - p.len()), p);
    }
}

} // verus!

verus! {

/// `n` spaces.
pub open spec fn spaces(n: nat) -> Seq<char> {
    Seq::new(n, |i: int| ' ')
}

/// `s` right-aligned in a field of `w` characters (`{:>w}`).
pub open spec fn pad_left(s: Seq<char>, w: nat) -> Seq<char> {
    if s.len() >= w {
        s
    } else {
        spaces((w - s.len()) as nat) + s
    }
}

/// `s` left-aligned in a field of `w` characters (`{:<w}`).
pub open spec fn pad_right(s: Seq<char>, w: nat) -> Seq<char> {
    if s.len() >= w {
        s
    } else {
        s + spaces((w - s.len()) as nat)
    }
}

/// Appends `n` spaces to `s`.
pub fn push_spaces(s: &mut String, n: usize)
    ensures
        final(s)@ == old(s)@ + spaces(n as nat),
{
    let mut i: usize = 0;
    while i < n
        invariant
            i <= n,
            s@ == old(s)@ + spaces(i as nat),
        decreases n - i,
    {
        push_char(s, ' ');
        assert(spaces((i + 1) as nat) == spaces(i as nat).push(' '));
        i = i + 1;
    }
}

/// The first `n` characters of `text`, or all of it when it is shorter
/// (`text.chars().take(n).collect()`).
pub fn first_chars(text: &str, n: usize) -> (r: String)
    ensures
        r@ == text@.take(if text@.len() < n { text@.len() as int } else { n as int }),
{
    let v = chars_of(text);
    let hi = if v.len() < n {
        v.len()
    } else {
        n
    };
    string_of_range(&v, 0, hi)
}

} // verus!

verus! {

/// A text that does not start with whitespace is its own `trim_start`.
pub proof fn lemma_trim_start_noop(t: Seq<char>)
    requires
        t.len() > 0,
        !is_ws(t[0]),
    ensures
        trim_start(t) == t,
{
}

/// A text that does not end with whitespace is its own `trim_end`.
pub proof fn lemma_trim_end_noop(t: Seq<char>)
    requires
        t.len() > 0,
        !is_ws(t.last()),
    ensures
        trim_end(t) == t,
{
}

/// Leading whitespace is removed from the front part only, when something
/// is left of it.
pub proof fn lemma_trim_start_concat(a: Seq<char>, b: Seq<char>)
    requires
        trim_start(a).len() > 0,
    ensures
        trim_start(a + b) == trim_start(a) + b,
    decreases a.len(),
{
    if a.len() > 0 && is_ws(a[0]) {
        assert((a + b)[0] == a[0]);
        assert((a + b).drop_first() == a.drop_first() + b);
        lemma_trim_start_concat(a.drop_first(), b);
    } else {
        assert(a.len() > 0);
        assert((a + b)[0] == a[0]);
    }
}

/// A trailing whitespace character goes with `trim_end`.
pub proof fn lemma_trim_end_drop_ws(t: Seq<char>, c: char)
    requires
        is_ws(c),
    ensures
        trim_end(t.push(c)) == trim_end(t),
{
    assert(t.push(c).drop_last() == t);
}

/// Whitespace on both sides of a text is removed by `trim` with the
/// text's own surrounding whitespace.
pub proof fn lemma_trim_wrapped(c: char, t: Seq<char>, d: char)
    requires
        is_ws(c),
        is_ws(d),
        trim(t).len() > 0,
    ensures
        trim(seq![c] + t + seq![d]) == trim(t),
{
    let w = seq![c] + t + seq![d];
    assert(w[0] == c);
    assert(w.drop_first() == t + seq![d]);
    assert(trim_start(w) == trim_start(t + seq![d]));
    assert(trim_start(t).len() > 0) by {
        lemma_trim_start_clean(t);
        if trim_start(t).len() == 0 {
            assert(trim_end(trim_start(t)) == trim_start(t));
        }
    }
    lemma_trim_start_concat(t, seq![d]);
    assert(trim_start(t) + seq![d] == trim_start(t).push(d));
    lemma_trim_end_drop_ws(trim_start(t), d);
}

/// Removing copies of `p` from the front of `p + r` removes them from `r`.
pub proof fn lemma_strip_leading_once(p: Seq<char>, r: Seq<char>)
    requires
        p.len() > 0,
    ensures
        strip_leading(p + r, p) == strip_leading(r, p),
{
    assert((p + r).subrange(0, p.len() as int) == p);
    assert((p + r).subrange(p.len() as int, (p + r).len() as int) == r);
}

/// A text whose character at `k` differs from the pattern's does not start
/// with the pattern.
pub proof fn lemma_strip_leading_none(s: Seq<char>, p: Seq<char>, k: int)
    requires
        0 <= k < p.len(),
        k < s.len(),
        s[k] != p[k],
    ensures
        strip_leading(s, p) == s,
{
    if p.len() <= s.len() {
        assert(s.subrange(0, p.len() as int)[k] != p[k]);
    }
}

/// Removing copies of `p` from the end of `r + p` removes them from `r`.
pub proof fn lemma_strip_trailing_once(r: Seq<char>, p: Seq<char>)
    requires
        p.len() > 0,
    ensures
        strip_trailing(r + p, p) == strip_trailing(r, p),
{
    assert((r + p).subrange((r + p).len() - p.len(), (r + p).len() as int) == p);
    assert((r + p).subrange(0, (r + p).len() - p.len()) == r);
}

/// A text whose last character differs from the pattern's does not end
/// with the pattern.
pub proof fn lemma_strip_trailing_none(s: Seq<char>, p: Seq<char>)
    requires
        p.len() > 0,
        s.len() > 0,
        s.last() != p.last(),
    ensures
        strip_trailing(s, p) == s,
{
    if p.len() <= s.len() {
        let q = s.subrange(s.len() - p.len(), s.len() as int);
        assert(q[q.len() - 1] == s.last());
    }
}

} // verus!

verus! {

/// Reading characters that are not whitespace only extends the word being
/// read.
pub proof fn lemma_split_state_word(s: Seq<char>, w: Seq<char>)
    requires
        no_ws(w),
    ensures
        split_state(s + w) == (split_state(s).0, split_state(s).1 + w),
    decreases w.len(),
{
    if w.len() == 0 {
        assert(s + w == s);
        assert(split_state(s).1 + w == split_state(s).1);
    } else {
        let w0 = w.drop_last();
        assert(no_ws(w0)) by {
            assert forall|i: int| 0 <= i < w0.len() implies !is_ws(#[trigger] w0[i]) by {
                assert(w0[i] == w[i]);
            }
        }
        lemma_split_state_word(s, w0);
        assert((s + w).drop_last() == s + w0);
        assert((s + w).last() == w.last());
        assert(!is_ws(w[w.len() - 1]));
        assert((split_state(s).1 + w0).push(w.last()) == split_state(s).1 + w);
    }
}

/// A single proper word is its own only word.
pub proof fn lemma_words_of_word(w: Seq<char>)
    requires
        w.len() > 0,
        no_ws(w),
    ensures
        words(w) == seq![w],
{
    lemma_split_state_word(Seq::empty(), w);
    assert(Seq::<char>::empty() + w == w);
    assert(split_state(Seq::<char>::empty()) == (Seq::<Seq<char>>::empty(), Seq::<char>::empty()));
    assert(Seq::<char>::empty() + w == w);
    assert(Seq::<Seq<char>>::empty().push(w) == seq![w]);
}

/// A space and then a proper word add that word to the words of a text.
pub proof fn lemma_words_push(c: Seq<char>, w: Seq<char>)
    requires
        w.len() > 0,
        no_ws(w),
    ensures
        words(c + seq![' '] + w) == words(c).push(w),
{
    let cs = c + seq![' '];
    assert(cs.drop_last() == c);
    assert(cs.last() == ' ');
    assert(is_ws(' ')) by {
        assert((' ' as u32) == 32);
    }
    assert(split_state(cs) == (words(c), Seq::<char>::empty()));
    lemma_split_state_word(cs, w);
    assert(Seq::<char>::empty() + w == w);
}

} // verus!
