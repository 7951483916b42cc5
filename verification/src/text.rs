//! Text as a sequence of characters: comparison, order, decimal digits.
use vstd::prelude::*;

verus! {

/// `String::push` appends one character.
pub assume_specification[ String::push ](s: &mut String, c: char)
    ensures
        final(s)@ == old(s)@.push(c),
;

/// Whether `a` comes strictly before `b` in the order of characters, the first
/// difference deciding. It is the order of `str` in the standard library.
pub open spec fn precedes(a: Seq<char>, b: Seq<char>) -> bool
    decreases a.len(),
{
    if b.len() == 0 {
        false
    } else if a.len() == 0 {
        true
    } else if a[0] != b[0] {
        a[0] < b[0]
    } else {
        precedes(a.drop_first(), b.drop_first())
    }
}

/// No text comes before itself.
pub proof fn precedes_irreflexive(a: Seq<char>)
    ensures
        !precedes(a, a),
    decreases a.len(),
{
    if a.len() > 0 {
        precedes_irreflexive(a.drop_first());
    }
}

/// The order of texts is transitive.
pub proof fn precedes_transitive(a: Seq<char>, b: Seq<char>, c: Seq<char>)
    requires
        precedes(a, b),
        precedes(b, c),
    ensures
        precedes(a, c),
    decreases a.len(),
{
    if a.len() > 0 && a[0] == b[0] && b[0] == c[0] {
        precedes_transitive(a.drop_first(), b.drop_first(), c.drop_first());
    }
}

/// Of two different texts one comes before the other.
pub proof fn precedes_total(a: Seq<char>, b: Seq<char>)
    ensures
        precedes(a, b) || a == b || precedes(b, a),
    decreases a.len(),
{
    if a.len() == 0 {
        if b.len() == 0 {
            assert(a =~= b);
        }
    } else if b.len() > 0 && a[0] == b[0] {
        precedes_total(a.drop_first(), b.drop_first());
        if a.drop_first() == b.drop_first() {
            assert(a =~= seq![a[0]] + a.drop_first());
            assert(b =~= seq![b[0]] + b.drop_first());
        }
    }
}

/// Not both of two texts come before the other.
pub proof fn precedes_asymmetric(a: Seq<char>, b: Seq<char>)
    requires
        precedes(a, b),
    ensures
        !precedes(b, a),
        a != b,
{
    if precedes(b, a) {
        precedes_transitive(a, b, a);
    }
    precedes_irreflexive(a);
}

/// A shared first part does not bear on the order of two texts.
proof fn precedes_after_prefix(a: Seq<char>, b: Seq<char>, k: int)
    requires
        0 <= k <= a.len(),
        k <= b.len(),
        a.subrange(0, k) == b.subrange(0, k),
    ensures
        precedes(a, b) == precedes(a.skip(k), b.skip(k)),
    decreases k,
{
    if k == 0 {
        assert(a.skip(0) =~= a);
        assert(b.skip(0) =~= b);
    } else {
        assert(a[0] == a.subrange(0, k)[0]);
        assert(b[0] == b.subrange(0, k)[0]);
        let a1 = a.drop_first();
        let b1 = b.drop_first();
        assert(a1.subrange(0, k - 1) =~= a.subrange(0, k).drop_first());
        assert(b1.subrange(0, k - 1) =~= b.subrange(0, k).drop_first());
        precedes_after_prefix(a1, b1, k - 1);
        assert(a1.skip(k - 1) =~= a.skip(k));
        assert(b1.skip(k - 1) =~= b.skip(k));
    }
}

/// How one text stands to another.
#[derive(Clone, Copy, Debug, PartialEq, Eq, Structural)]
pub enum Placing {
    Before,
    Same,
    After,
}

/// The characters of a text.
pub fn chars_of(s: &str) -> (r: Vec<char>)
    ensures
        r@ == s@,
{
    let mut out: Vec<char> = Vec::new();
    for c in it: s.chars()
        invariant
            it.seq() == s@,
            out@ == s@.subrange(0, it.index() as int),
    {
        proof {
            assert(s@.subrange(0, it.index() + 1) =~= s@.subrange(0, it.index() as int).push(c));
        }
        out.push(c);
    }
    proof {
        assert(s@.subrange(0, s@.len() as int) =~= s@);
    }
    out
}

/// The text made of the characters from `from` up to, not including, `to`.
pub fn string_from(chars: &Vec<char>, from: usize, to: usize) -> (r: String)
    requires
        from <= to <= chars.len(),
    ensures
        r@ == chars@.subrange(from as int, to as int),
{
    let mut out: String = String::new();
    let mut i: usize = from;
    while i < to
        invariant
            from <= i <= to <= chars.len(),
            out@ == chars@.subrange(from as int, i as int),
        decreases to - i,
    {
        out.push(chars[i]);
        i = i + 1;
        proof {
            assert(chars@.subrange(from as int, i as int) =~= chars@.subrange(
                from as int,
                i - 1,
            ).push(chars[i - 1]));
        }
    }
    out
}

/// Whether two texts hold the same characters.
pub fn same_text(a: &str, b: &str) -> (r: bool)
    ensures
        r == (a@ == b@),
{
    a.to_owned() == b.to_owned()
}

/// Where `a` stands beside `b` in the order of texts.
pub fn placing(a: &str, b: &str) -> (r: Placing)
    ensures
        r == Placing::Same <==> a@ == b@,
        r == Placing::Before <==> precedes(a@, b@),
        r == Placing::After <==> precedes(b@, a@),
{
    let ca: Vec<char> = chars_of(a);
    let cb: Vec<char> = chars_of(b);
    let mut i: usize = 0;
    while i < ca.len() && i < cb.len() && ca[i] == cb[i]
        invariant
            ca@ == a@,
            cb@ == b@,
            i <= ca.len(),
            i <= cb.len(),
            a@.subrange(0, i as int) == b@.subrange(0, i as int),
        decreases ca.len() - i,
    {
        proof {
            assert(a@.subrange(0, i + 1) =~= a@.subrange(0, i as int).push(a@[i as int]));
            assert(b@.subrange(0, i + 1) =~= b@.subrange(0, i as int).push(b@[i as int]));
        }
        i = i + 1;
    }
    proof {
        precedes_after_prefix(a@, b@, i as int);
        precedes_after_prefix(b@, a@, i as int);
        precedes_irreflexive(a@);
        if i < a@.len() && i < b@.len() {
            assert(a@.skip(i as int)[0] == a@[i as int]);
            assert(b@.skip(i as int)[0] == b@[i as int]);
        }
        if i == a@.len() && i == b@.len() {
            assert(a@ =~= a@.subrange(0, i as int));
            assert(b@ =~= b@.subrange(0, i as int));
        }
    }
    if i < ca.len() {
        if i < cb.len() {
            if ca[i] < cb[i] {
                Placing::Before
            } else {
                Placing::After
            }
        } else {
            Placing::After
        }
    } else if i < cb.len() {
        Placing::Before
    } else {
        Placing::Same
    }
}

/// The characters of each text in a list.
pub open spec fn texts(list: Seq<String>) -> Seq<Seq<char>> {
    list.map_values(|s: String| s@)
}

/// The characters of a text that may be absent.
pub open spec fn text_if_any(t: Option<String>) -> Option<Seq<char>> {
    match t {
        Some(s) => Some(s@),
        None => None,
    }
}

/// A copy of a list of texts.
pub fn copy_texts(list: &Vec<String>) -> (r: Vec<String>)
    ensures
        r@ == list@,
{
    let r: Vec<String> = list.clone();
    proof {
        assert(r@ =~= list@);
    }
    r
}

/// A copy of a text that may be absent.
pub fn copy_if_any(t: &Option<String>) -> (r: Option<String>)
    ensures
        r == *t,
{
    match t {
        Some(s) => Some(s.clone()),
        None => None,
    }
}

/// A text with another in front of it.
pub fn prefixed(head: &str, tail: &str) -> (r: String)
    ensures
        r@ == head@ + tail@,
{
    let mut out: String = head.to_owned();
    out.append(tail);
    out
}

/// Whether a text is among the texts of a list.
pub fn is_among(list: &Vec<String>, t: &str) -> (r: bool)
    ensures
        r == texts(list@).contains(t@),
{
    let mut i: usize = 0;
    while i < list.len()
        invariant
            i <= list.len(),
            forall|j: int| 0 <= j < i ==> #[trigger] texts(list@)[j] != t@,
        decreases list.len() - i,
    {
        assert(texts(list@)[i as int] == list[i as int]@);
        if same_text(list[i].as_str(), t) {
            return true;
        }
        i = i + 1;
    }
    false
}

// ---- lines, blanks and words -------------------------------------------

/// Index of the first line feed, or the length where there is none.
pub open spec fn line_end(s: Seq<char>) -> int
    decreases s.len(),
{
    if s.len() == 0 || s[0] == '\n' {
        0
    } else {
        1 + line_end(s.drop_first())
    }
}

proof fn line_end_skips(s: Seq<char>, k: int)
    requires
        0 <= k <= s.len(),
        forall|i: int| 0 <= i < k ==> s[i] != '\n',
    ensures
        line_end(s) == k + line_end(s.skip(k)),
    decreases k,
{
    if k == 0 {
        assert(s.skip(0) =~= s);
    } else {
        line_end_skips(s.drop_first(), k - 1);
        assert(s.drop_first().skip(k - 1) =~= s.skip(k));
    }
}

/// Index of the first line feed from `from` on, or the length.
pub fn find_line_end(chars: &Vec<char>, from: usize) -> (r: usize)
    requires
        from <= chars.len(),
    ensures
        from <= r <= chars.len(),
        r == from + line_end(chars@.skip(from as int)),
{
    let ghost s = chars@.skip(from as int);
    let mut i: usize = from;
    while i < chars.len() && chars[i] != '\n'
        invariant
            from <= i <= chars.len(),
            s == chars@.skip(from as int),
            forall|k: int| 0 <= k < i - from ==> s[k] != '\n',
        decreases chars.len() - i,
    {
        i = i + 1;
    }
    proof {
        line_end_skips(s, i - from);
        if i < chars.len() {
            assert(s.skip(i - from)[0] == chars@[i as int]);
        }
    }
    i
}

/// Whether a character is white space in Unicode.
pub open spec fn blank(c: char) -> bool {
    let n = c as u32;
    ||| 9 <= n <= 13
    ||| n == 0x20
    ||| n == 0x85
    ||| n == 0xa0
    ||| n == 0x1680
    ||| 0x2000 <= n <= 0x200a
    ||| n == 0x2028
    ||| n == 0x2029
    ||| n == 0x202f
    ||| n == 0x205f
    ||| n == 0x3000
}

/// Whether a character is white space in Unicode.
pub fn is_blank(c: char) -> (r: bool)
    ensures
        r == blank(c),
{
    let n: u32 = c as u32;
    (9 <= n && n <= 13) || n == 0x20 || n == 0x85 || n == 0xa0 || n == 0x1680 || (0x2000 <= n && n
        <= 0x200a) || n == 0x2028 || n == 0x2029 || n == 0x202f || n == 0x205f || n == 0x3000
}

/// A text without the white space at its front.
pub open spec fn trimmed_front(s: Seq<char>) -> Seq<char>
    decreases s.len(),
{
    if s.len() > 0 && blank(s[0]) {
        trimmed_front(s.drop_first())
    } else {
        s
    }
}

/// A text without the white space at its end.
pub open spec fn trimmed_back(s: Seq<char>) -> Seq<char>
    decreases s.len(),
{
    if s.len() > 0 && blank(s.last()) {
        trimmed_back(s.drop_last())
    } else {
        s
    }
}

/// A text without the white space at its ends.
pub open spec fn trimmed(s: Seq<char>) -> Seq<char> {
    trimmed_back(trimmed_front(s))
}

/// The stretch of `from..to` that is left when white space is taken off its ends.
pub fn trim_bounds(chars: &Vec<char>, from: usize, to: usize) -> (r: (usize, usize))
    requires
        from <= to <= chars.len(),
    ensures
        from <= r.0 <= r.1 <= to,
        chars@.subrange(r.0 as int, r.1 as int) == trimmed(chars@.subrange(from as int, to as int)),
{
    let ghost whole = chars@.subrange(from as int, to as int);
    let mut a: usize = from;
    while a < to && is_blank(chars[a])
        invariant
            from <= a <= to <= chars.len(),
            trimmed_front(whole) == trimmed_front(chars@.subrange(a as int, to as int)),
        decreases to - a,
    {
        proof {
            assert(chars@.subrange(a as int, to as int).drop_first() =~= chars@.subrange(
                a + 1,
                to as int,
            ));
        }
        a = a + 1;
    }
    let mut b: usize = to;
    proof {
        assert(trimmed_front(whole) == chars@.subrange(a as int, to as int));
    }
    while b > a && is_blank(chars[b - 1])
        invariant
            from <= a <= b <= to <= chars.len(),
            trimmed(whole) == trimmed_back(chars@.subrange(a as int, b as int)),
        decreases b - a,
    {
        proof {
            assert(chars@.subrange(a as int, b as int).drop_last() =~= chars@.subrange(
                a as int,
                b - 1,
            ));
        }
        b = b - 1;
    }
    (a, b)
}

/// A text without the white space at its ends.
pub fn trim_text(s: &str) -> (r: String)
    ensures
        r@ == trimmed(s@),
{
    let chars: Vec<char> = chars_of(s);
    let (a, b) = trim_bounds(&chars, 0, chars.len());
    proof {
        assert(chars@.subrange(0, chars@.len() as int) =~= s@);
    }
    string_from(&chars, a, b)
}

/// Whether a character parts words: the white space of ASCII.
pub open spec fn gap(c: char) -> bool {
    c == ' ' || c == '\t' || c == '\n' || c == '\r' || c == '\x0c'
}

/// Length of the word at the front of a text.
pub open spec fn word_len(s: Seq<char>) -> int
    decreases s.len(),
{
    if s.len() == 0 || gap(s[0]) {
        0
    } else {
        1 + word_len(s.drop_first())
    }
}

/// The words of a text, parted by the white space of ASCII.
pub open spec fn words(s: Seq<char>) -> Seq<Seq<char>>
    decreases s.len(),
{
    if s.len() == 0 {
        Seq::empty()
    } else if gap(s[0]) {
        words(s.drop_first())
    } else {
        let n = word_len(s);
        if 0 < n <= s.len() {
            seq![s.take(n)] + words(s.skip(n))
        } else {
            Seq::empty()
        }
    }
}

proof fn word_len_skips(s: Seq<char>, k: int)
    requires
        0 <= k <= s.len(),
        forall|i: int| 0 <= i < k ==> !gap(s[i]),
    ensures
        word_len(s) == k + word_len(s.skip(k)),
    decreases k,
{
    if k == 0 {
        assert(s.skip(0) =~= s);
    } else {
        word_len_skips(s.drop_first(), k - 1);
        assert(s.drop_first().skip(k - 1) =~= s.skip(k));
    }
}

fn is_gap(c: char) -> (r: bool)
    ensures
        r == gap(c),
{
    c == ' ' || c == '\t' || c == '\n' || c == '\r' || c == '\x0c'
}

/// The words from a position on.
pub fn split_words(chars: &Vec<char>, from: usize) -> (r: Vec<String>)
    requires
        from <= chars.len(),
    ensures
        texts(r@) == words(chars@.skip(from as int)),
        r@.len() <= chars@.len() - from,
{
    let ghost want = words(chars@.skip(from as int));
    let mut out: Vec<String> = Vec::new();
    let mut i: usize = from;
    proof {
        assert(texts(out@) + want =~= want);
    }
    while i < chars.len()
        invariant
            from <= i <= chars.len(),
            texts(out@) + words(chars@.skip(i as int)) == want,
            out@.len() <= i - from,
        decreases chars.len() - i,
    {
        let ghost s = chars@.skip(i as int);
        if is_gap(chars[i]) {
            proof {
                assert(s.drop_first() =~= chars@.skip(i + 1));
            }
            i = i + 1;
        } else {
            let mut j: usize = i;
            while j < chars.len() && !is_gap(chars[j])
                invariant
                    i <= j <= chars.len(),
                    s == chars@.skip(i as int),
                    forall|k: int| 0 <= k < j - i ==> !gap(s[k]),
                decreases chars.len() - j,
            {
                j = j + 1;
            }
            proof {
                word_len_skips(s, j - i);
                if j < chars.len() {
                    assert(s.skip(j - i)[0] == chars@[j as int]);
                }
                assert(word_len(s) == j - i);
                if j == i {
                    assert(!gap(chars@[i as int]));
                }
                assert(s.take(j - i) =~= chars@.subrange(i as int, j as int));
                assert(s.skip(j - i) =~= chars@.skip(j as int));
            }
            let word: String = string_from(chars, i, j);
            let ghost before = texts(out@);
            out.push(word);
            proof {
                assert(texts(out@) =~= before.push(word@));
                assert(before.push(word@) + words(chars@.skip(j as int)) =~= before + (
                seq![word@] + words(chars@.skip(j as int))));
            }
            i = j;
        }
    }
    proof {
        assert(chars@.skip(i as int) =~= Seq::empty());
        assert(texts(out@) + words(chars@.skip(i as int)) =~= texts(out@));
    }
    out
}

// ---- parts of a text ---------------------------------------------------

/// Whether `part` stands in `whole` from place `at` on.
pub open spec fn part_at(whole: Seq<char>, part: Seq<char>, at: int) -> bool {
    0 <= at && at + part.len() <= whole.len() && whole.subrange(at, at + part.len()) == part
}

/// Whether a text contains another.
pub open spec fn contains(whole: Seq<char>, part: Seq<char>) -> bool {
    exists|at: int| #[trigger] part_at(whole, part, at)
}

/// Whether a text contains another.
pub fn contains_text(whole: &str, part: &str) -> (r: bool)
    ensures
        r == contains(whole@, part@),
{
    let w: Vec<char> = chars_of(whole);
    let p: Vec<char> = chars_of(part);
    if p.len() > w.len() {
        return false;
    }
    let size: usize = w.len();
    let last: usize = size - p.len();
    let mut at: usize = 0;
    loop
        invariant
            w@ == whole@,
            p@ == part@,
            p@.len() <= w@.len(),
            size == w@.len(),
            last == size - p@.len(),
            at <= last,
            forall|i: int| 0 <= i < at ==> !#[trigger] part_at(w@, p@, i),
        decreases last - at,
    {
        let mut n: usize = 0;
        while n < p.len() && w[at + n] == p[n]
            invariant
                n <= p@.len(),
                at <= last,
                size == w@.len(),
                last == size - p@.len(),
                forall|i: int| 0 <= i < n ==> w@[at + i] == p@[i],
            decreases p@.len() - n,
        {
            n = n + 1;
        }
        if n == p.len() {
            proof {
                assert(w@.subrange(at as int, at + p@.len()) =~= p@);
                assert(part_at(whole@, part@, at as int));
            }
            return true;
        }
        proof {
            assert(w@.subrange(at as int, at + p@.len())[n as int] != p@[n as int]);
            assert(!part_at(w@, p@, at as int));
        }
        if at == last {
            return false;
        }
        at = at + 1;
    }
}

/// A text in lower case.
pub uninterp spec fn lowercase(s: Seq<char>) -> Seq<char>;

/// A text in lower case, from `str::to_lowercase` of the standard library. What
/// it does to each character is left to the Unicode tables that ship with it; it
/// depends on the text alone.
#[verifier::external_body]
pub(crate) fn lower_text(s: &str) -> (r: String)
    ensures
        r@ == lowercase(s@),
{
    s.to_lowercase()
}

/// A character, an ASCII capital in lower case.
pub open spec fn ascii_lower(c: char) -> char {
    if 'A' <= c && c <= 'Z' {
        (c as int + 32) as char
    } else {
        c
    }
}

/// A text with its ASCII capitals in lower case.
pub open spec fn ascii_lowered(s: Seq<char>) -> Seq<char> {
    s.map_values(|c: char| ascii_lower(c))
}

fn lower_char(c: char) -> (r: char)
    ensures
        r == ascii_lower(c),
{
    if 'A' <= c && c <= 'Z' {
        let n: u8 = c as u8;
        (n + 32) as char
    } else {
        c
    }
}

/// A text with its ASCII capitals in lower case.
pub fn ascii_lower_text(s: &str) -> (r: String)
    ensures
        r@ == ascii_lowered(s@),
{
    let chars: Vec<char> = chars_of(s);
    let mut out: String = String::new();
    let mut i: usize = 0;
    while i < chars.len()
        invariant
            i <= chars@.len(),
            chars@ == s@,
            out@ == ascii_lowered(s@).take(i as int),
        decreases chars@.len() - i,
    {
        out.push(lower_char(chars[i]));
        proof {
            let all = ascii_lowered(s@);
            assert(all.take(i + 1) =~= all.take(i as int).push(all[i as int]));
        }
        i = i + 1;
    }
    proof {
        assert(ascii_lowered(s@).take(i as int) =~= ascii_lowered(s@));
    }
    out
}

// ---- decimal numbers ---------------------------------------------------

/// The last decimal digit of a number.
pub open spec fn digit(n: int) -> char {
    ('0' as int + n % 10) as char
}

/// A number in decimal.
pub open spec fn decimal(n: nat) -> Seq<char>
    decreases n,
{
    if n < 10 {
        seq![digit(n as int)]
    } else {
        decimal(n / 10).push(digit(n as int))
    }
}

fn digit_char(n: u64) -> (r: char)
    requires
        n < 10,
    ensures
        r == digit(n as int),
{
    if n == 0 {
        '0'
    } else if n == 1 {
        '1'
    } else if n == 2 {
        '2'
    } else if n == 3 {
        '3'
    } else if n == 4 {
        '4'
    } else if n == 5 {
        '5'
    } else if n == 6 {
        '6'
    } else if n == 7 {
        '7'
    } else if n == 8 {
        '8'
    } else {
        '9'
    }
}

/// A number in decimal.
pub fn decimal_text(n: u64) -> (r: String)
    ensures
        r@ == decimal(n as nat),
    decreases n,
{
    let mut out: String = if n < 10 {
        String::new()
    } else {
        decimal_text(n / 10)
    };
    out.push(digit_char(n % 10));
    proof {
        if n < 10 {
            assert(out@ =~= decimal(n as nat));
        }
    }
    out
}

// ---- what texts give back ----------------------------------------------

/// A line ends at its first line feed, and at the end of the text where there is none.
pub proof fn lines_end_at_the_first_break(s: Seq<char>)
    ensures
        0 <= line_end(s) <= s.len(),
        forall|i: int| 0 <= i < line_end(s) ==> #[trigger] s[i] != '\n',
        line_end(s) < s.len() ==> s[line_end(s)] == '\n',
    decreases s.len(),
{
    if s.len() > 0 && s[0] != '\n' {
        let rest = s.drop_first();
        lines_end_at_the_first_break(rest);
        assert forall|i: int| 0 <= i < line_end(s) implies #[trigger] s[i] != '\n' by {
            if i > 0 {
                assert(rest[i - 1] == s[i]);
            }
        }
    }
}

proof fn front_is_blank(s: Seq<char>) -> (k: int)
    ensures
        0 <= k <= s.len(),
        trimmed_front(s) == s.skip(k),
        forall|i: int| 0 <= i < k ==> blank(#[trigger] s[i]),
        k < s.len() ==> !blank(s[k]),
    decreases s.len(),
{
    if s.len() > 0 && blank(s[0]) {
        let rest = s.drop_first();
        let k = front_is_blank(rest);
        assert(rest.skip(k) =~= s.skip(k + 1));
        assert forall|i: int| 0 <= i < k + 1 implies blank(#[trigger] s[i]) by {
            if i > 0 {
                assert(rest[i - 1] == s[i]);
            }
        }
        k + 1
    } else {
        assert(s.skip(0) =~= s);
        0
    }
}

proof fn back_is_blank(s: Seq<char>) -> (k: int)
    ensures
        0 <= k <= s.len(),
        trimmed_back(s) == s.take(k),
        forall|i: int| k <= i < s.len() ==> blank(#[trigger] s[i]),
        k > 0 ==> !blank(s[k - 1]),
    decreases s.len(),
{
    if s.len() > 0 && blank(s.last()) {
        let rest = s.drop_last();
        let k = back_is_blank(rest);
        assert(rest.take(k) =~= s.take(k));
        assert forall|i: int| k <= i < s.len() implies blank(#[trigger] s[i]) by {
            if i < rest.len() {
                assert(rest[i] == s[i]);
            }
        }
        k
    } else {
        assert(s.take(s.len() as int) =~= s);
        s.len() as int
    }
}

/// Trimming takes off white space and nothing else: what is left neither starts nor ends
/// with white space, and what was before and behind it is nothing but white space.
pub proof fn trimming_takes_off_white_space_only(s: Seq<char>)
    ensures
        exists|from: int, to: int|
            0 <= from <= to <= s.len() && trimmed(s) == #[trigger] s.subrange(from, to) && (
            forall|i: int| (0 <= i < from || to <= i < s.len()) ==> blank(#[trigger] s[i])),
        trimmed(s).len() > 0 ==> !blank(trimmed(s)[0]) && !blank(trimmed(s).last()),
{
    let a = front_is_blank(s);
    let rest = s.skip(a);
    let b = back_is_blank(rest);
    assert(rest.take(b) =~= s.subrange(a, a + b));
    assert forall|i: int| (0 <= i < a || a + b <= i < s.len()) implies blank(#[trigger] s[i]) by {
        if a + b <= i < s.len() {
            assert(rest[i - a] == s[i]);
        }
    }
    if b > 0 {
        assert(trimmed(s)[0] == s[a]);
        assert(trimmed(s).last() == rest[b - 1]);
    }
}

/// Words are parted by the white space of ASCII, a vertical tab aside.
pub proof fn words_are_parted_by_white_space(c: char)
    ensures
        gap(c) <==> blank(c) && (c as u32) < 0x80 && c != '\x0b',
{
}

/// A text without a gap is one word.
pub proof fn texts_without_a_gap_are_one_word(s: Seq<char>)
    requires
        s.len() > 0,
        forall|i: int| 0 <= i < s.len() ==> !gap(#[trigger] s[i]),
    ensures
        words(s) == seq![s],
{
    let n = s.len() as int;
    word_len_skips(s, n);
    assert(s.skip(n) =~= Seq::empty());
    assert(s.take(n) =~= s);
    assert(!gap(s[0]));
    assert(words(s.skip(n)) =~= Seq::empty());
    assert(words(s) =~= seq![s]);
}

/// A gap parts the words before it from those behind it.
pub proof fn gaps_part_words(before: Seq<char>, c: char, behind: Seq<char>)
    requires
        gap(c),
    ensures
        words(before.push(c) + behind) == words(before) + words(behind),
    decreases before.len(),
{
    let s = before.push(c) + behind;
    if before.len() == 0 {
        assert(s[0] == c);
        assert(s.drop_first() =~= behind);
        assert(words(before) + words(behind) =~= words(behind));
    } else if gap(before[0]) {
        assert(s[0] == before[0]);
        assert(s.drop_first() =~= before.drop_first().push(c) + behind);
        gaps_part_words(before.drop_first(), c, behind);
    } else {
        word_len_ends(before);
        let n = word_len(before);
        assert(!gap(s[0]));
        assert(n > 0);
        assert forall|i: int| 0 <= i < n implies !gap(s[i]) by {
            assert(s[i] == before[i]);
        }
        word_len_skips(s, n);
        assert(gap(s[n]));
        assert(s.skip(n)[0] == s[n]);
        assert(word_len(s) == n);
        assert(s.take(n) =~= before.take(n));
        assert(s.skip(n) =~= before.skip(n).push(c) + behind);
        gaps_part_words(before.skip(n), c, behind);
        let head = seq![before.take(n)];
        assert(head + (words(before.skip(n)) + words(behind)) =~= head + words(before.skip(n))
            + words(behind));
    }
}

proof fn word_len_ends(s: Seq<char>)
    ensures
        0 <= word_len(s) <= s.len(),
        forall|i: int| 0 <= i < word_len(s) ==> !gap(#[trigger] s[i]),
        word_len(s) < s.len() ==> gap(s[word_len(s)]),
    decreases s.len(),
{
    if s.len() > 0 && !gap(s[0]) {
        let rest = s.drop_first();
        word_len_ends(rest);
        assert forall|i: int| 0 <= i < word_len(s) implies !gap(#[trigger] s[i]) by {
            if i > 0 {
                assert(rest[i - 1] == s[i]);
            }
        }
    }
}

/// A text contains another exactly if it is made of something, the other, and something.
pub proof fn parts_stand_between_the_rest(whole: Seq<char>, part: Seq<char>)
    ensures
        contains(whole, part) <==> exists|before: Seq<char>, behind: Seq<char>|
            whole == #[trigger] (before + part + behind),
{
    if contains(whole, part) {
        let at = choose|at: int| #[trigger] part_at(whole, part, at);
        let before = whole.take(at);
        let behind = whole.skip(at + part.len());
        assert(whole =~= before + part + behind);
    }
    if exists|before: Seq<char>, behind: Seq<char>| whole == #[trigger] (before + part + behind) {
        let (before, behind): (Seq<char>, Seq<char>) = choose|
            before: Seq<char>,
            behind: Seq<char>,
        | whole == #[trigger] (before + part + behind);
        let at = before.len() as int;
        assert(whole.subrange(at, at + part.len()) =~= part);
        assert(part_at(whole, part, at));
    }
}

/// Each capital becomes the small letter at its place of the alphabet, and every other
/// character stays.
pub proof fn capitals_become_small(c: char)
    ensures
        'A' <= c <= 'Z' ==> 'a' <= ascii_lower(c) <= 'z' && ascii_lower(c) as int - 'a' as int
            == c as int - 'A' as int,
        !('A' <= c <= 'Z') ==> ascii_lower(c) == c,
{
}

/// A text stays as long as it is in lower case, has no capitals then, and stays what it is
/// from there on.
pub proof fn lowered_texts_have_no_capitals(s: Seq<char>)
    ensures
        ascii_lowered(s).len() == s.len(),
        forall|i: int| 0 <= i < s.len() ==> !('A' <= (#[trigger] ascii_lowered(s)[i]) <= 'Z'),
        ascii_lowered(ascii_lowered(s)) == ascii_lowered(s),
{
    assert forall|i: int| 0 <= i < s.len() implies !('A' <= (#[trigger] ascii_lowered(s)[i])
        <= 'Z') by {
        capitals_become_small(s[i]);
    }
    assert(ascii_lowered(ascii_lowered(s)) =~= ascii_lowered(s));
}

/// The number that decimal digits stand for.
pub open spec fn number(s: Seq<char>) -> int {
    s.fold_left(0int, |n: int, c: char| 10 * n + (c as int - '0' as int))
}

/// A number in decimal stands for itself: it is made of digits, and starts with a zero
/// only where it is zero.
pub proof fn decimals_stand_for_their_number(n: nat)
    ensures
        number(decimal(n)) == n,
        decimal(n).len() > 0,
        forall|i: int| 0 <= i < decimal(n).len() ==> '0' <= (#[trigger] decimal(n)[i]) <= '9',
        decimal(n)[0] == '0' ==> n == 0,
    decreases n,
{
    let f = |n: int, c: char| 10 * n + (c as int - '0' as int);
    if n < 10 {
        let s = decimal(n);
        assert(s.drop_last() =~= Seq::empty());
        assert(s.drop_last().fold_left(0int, f) == 0);
    } else {
        let s = decimal(n);
        decimals_stand_for_their_number(n / 10);
        assert(s.drop_last() =~= decimal(n / 10));
        assert(s.last() == digit(n as int));
        assert forall|i: int| 0 <= i < s.len() implies '0' <= (#[trigger] s[i]) <= '9' by {
            if i < s.len() - 1 {
                assert(s[i] == decimal(n / 10)[i]);
            }
        }
    }
}

/// A text that is made of something, another text, and something contains the other.
pub proof fn texts_contain_what_they_are_made_of(
    whole: Seq<char>,
    before: Seq<char>,
    part: Seq<char>,
    behind: Seq<char>,
)
    requires
        whole == before + part + behind,
    ensures
        contains(whole, part),
{
    parts_stand_between_the_rest(whole, part);
}

} // verus!
