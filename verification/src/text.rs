//! Character sequences: the operations on text that the interpreter is built from,
//! each stated over `Seq<char>`.

use vstd::prelude::*;

verus! {

/// Taken on trust: `String::push` of the standard library puts the character at the end
/// of the string and leaves what the string held before as it was.
pub assume_specification[ String::push ](text: &mut String, ch: char)
    ensures
        final(text)@ == old(text)@.push(ch),
;

/// The characters of a string slice, in order.
pub fn chars_of(text: &str) -> (out: Vec<char>)
    ensures
        out@ == text@,
{
    let mut out: Vec<char> = Vec::new();
    for c in it: text.chars()
        invariant
            out@ == it.seq().take(it.index() as int),
            it.seq() == text@,
    {
        out.push(c);
    }
    out
}

/// The string made of the given characters.
pub fn text_of(chars: &Vec<char>) -> (out: String)
    ensures
        out@ == chars@,
{
    let mut out = String::new();
    let mut i: usize = 0;
    while i < chars.len()
        invariant
            i <= chars.len(),
            out@ == chars@.take(i as int),
        decreases chars.len() - i,
    {
        out.push(chars[i]);
        i += 1;
    }
    out
}

/// A copy of `s[from..to]`.
pub fn slice_of(s: &Vec<char>, from: usize, to: usize) -> (out: Vec<char>)
    requires
        from <= to <= s.len(),
    ensures
        out@ == s@.subrange(from as int, to as int),
{
    let mut out: Vec<char> = Vec::new();
    let mut i: usize = from;
    while i < to
        invariant
            from <= i <= to <= s.len(),
            out@ == s@.subrange(from as int, i as int),
        decreases to - i,
    {
        out.push(s[i]);
        i += 1;
    }
    out
}

/// The views of the items of a sequence, in order.
pub open spec fn views<T: View>(items: Seq<T>) -> Seq<T::V> {
    Seq::new(items.len(), |i: int| items[i]@)
}

/// Whether two character sequences are equal.
pub fn same_text(a: &Vec<char>, b: &Vec<char>) -> (r: bool)
    ensures
        r == (a@ == b@),
{
    if a.len() != b.len() {
        return false;
    }
    let mut i: usize = 0;
    while i < a.len()
        invariant
            i <= a.len(),
            a.len() == b.len(),
            a@.take(i as int) == b@.take(i as int),
        decreases a.len() - i,
    {
        if a[i] != b[i] {
            return false;
        }
        assert(a@.take(i + 1) =~= a@.take(i as int).push(a@[i as int]));
        assert(b@.take(i + 1) =~= b@.take(i as int).push(b@[i as int]));
        i += 1;
    }
    assert(a@ =~= a@.take(a.len() as int));
    assert(b@ =~= b@.take(b.len() as int));
    true
}

/// Appends the characters of `tail` to `head`.
pub fn append_text(head: &mut Vec<char>, tail: &Vec<char>)
    ensures
        final(head)@ == old(head)@ + tail@,
{
    let mut i: usize = 0;
    while i < tail.len()
        invariant
            i <= tail.len(),
            head@ == old(head)@ + tail@.take(i as int),
        decreases tail.len() - i,
    {
        head.push(tail[i]);
        assert(tail@.take(i + 1) =~= tail@.take(i as int).push(tail@[i as int]));
        i += 1;
    }
    assert(tail@ =~= tail@.take(tail.len() as int));
}

/// Whether `c` is white space: the code points with the Unicode property White_Space.
pub open spec fn is_space(c: char) -> bool {
    let n = c as u32;
    ||| 0x09 <= n <= 0x0D
    ||| n == 0x20
    ||| n == 0x85
    ||| n == 0xA0
    ||| n == 0x1680
    ||| 0x2000 <= n <= 0x200A
    ||| n == 0x2028
    ||| n == 0x2029
    ||| n == 0x202F
    ||| n == 0x205F
    ||| n == 0x3000
}

/// Whether `c` is white space.
pub fn is_whitespace(c: char) -> (r: bool)
    ensures
        r == is_space(c),
{
    let n: u32 = c as u32;
    (0x09 <= n && n <= 0x0D) || n == 0x20 || n == 0x85 || n == 0xA0 || n == 0x1680 || (0x2000 <= n
        && n <= 0x200A) || n == 0x2028 || n == 0x2029 || n == 0x202F || n == 0x205F || n == 0x3000
}

/// Whether `c` is one of the ten decimal digits.
pub open spec fn is_digit(c: char) -> bool {
    '0' <= c <= '9'
}

/// Whether `c` is a decimal digit.
pub fn is_ascii_digit(c: char) -> (r: bool)
    ensures
        r == is_digit(c),
{
    '0' <= c && c <= '9'
}


/// The first position at or after `i` that holds no white space (the length, if there is none).
pub open spec fn space_prefix(s: Seq<char>, i: int) -> int
    decreases s.len() - i,
{
    if 0 <= i < s.len() && is_space(s[i]) {
        space_prefix(s, i + 1)
    } else {
        i
    }
}

/// The least position such that everything from it up to `j` is white space.
pub open spec fn space_suffix(s: Seq<char>, j: int) -> int
    decreases j,
{
    if 0 < j <= s.len() && is_space(s[j - 1]) {
        space_suffix(s, j - 1)
    } else {
        j
    }
}

/// `s` without its leading and trailing white space.
pub open spec fn trimmed(s: Seq<char>) -> Seq<char> {
    let a = space_prefix(s, 0);
    if a >= s.len() {
        Seq::empty()
    } else {
        s.subrange(a, space_suffix(s, s.len() as int))
    }
}

/// Where the white space at the start of a text stops.
pub proof fn lemma_space_prefix(s: Seq<char>, i: int)
    requires
        0 <= i <= s.len(),
    ensures
        i <= space_prefix(s, i) <= s.len(),
        space_prefix(s, i) < s.len() ==> !is_space(s[space_prefix(s, i)]),
        forall|k: int| i <= k < space_prefix(s, i) ==> is_space(#[trigger] s[k]),
    decreases s.len() - i,
{
    if i < s.len() && is_space(s[i]) {
        lemma_space_prefix(s, i + 1);
    }
}

/// Where the white space at the end of a text starts.
pub proof fn lemma_space_suffix(s: Seq<char>, j: int)
    requires
        0 <= j <= s.len(),
    ensures
        0 <= space_suffix(s, j) <= j,
        0 < space_suffix(s, j) ==> !is_space(s[space_suffix(s, j) - 1]),
        forall|k: int| space_suffix(s, j) <= k < j ==> is_space(#[trigger] s[k]),
    decreases j,
{
    if 0 < j && is_space(s[j - 1]) {
        lemma_space_suffix(s, j - 1);
    }
}

/// Trimming makes a text no longer, and leaves no white space at its ends.
pub proof fn lemma_trimmed_fits(s: Seq<char>)
    ensures
        trimmed(s).len() <= s.len(),
        trimmed(s).len() > 0 ==> !is_space(trimmed(s).first()) && !is_space(trimmed(s).last()),
{
    lemma_space_prefix(s, 0);
    lemma_space_suffix(s, s.len() as int);
    let a = space_prefix(s, 0);
    let b = space_suffix(s, s.len() as int);
    if a < s.len() {
        if b <= a {
            assert(is_space(s[a]));
        }
    }
}

/// A text that neither begins nor ends with white space is its own trimming.
pub proof fn lemma_trimmed_is_whole(s: Seq<char>)
    requires
        s.len() > 0,
        !is_space(s.first()),
        !is_space(s.last()),
    ensures
        trimmed(s) == s,
{
    assert(trimmed(s) =~= s);
}

/// `s` without its leading and trailing white space.
pub fn trim(s: &Vec<char>) -> (out: Vec<char>)
    ensures
        out@ == trimmed(s@),
{
    let mut a: usize = 0;
    while a < s.len() && is_whitespace(s[a])
        invariant
            a <= s.len(),
            space_prefix(s@, 0) == space_prefix(s@, a as int),
        decreases s.len() - a,
    {
        a += 1;
    }
    if a >= s.len() {
        return Vec::new();
    }
    let mut b: usize = s.len();
    while b > 0 && is_whitespace(s[b - 1])
        invariant
            a < b <= s.len(),
            !is_space(s@[a as int]),
            space_suffix(s@, s.len() as int) == space_suffix(s@, b as int),
        decreases b,
    {
        b -= 1;
    }
    slice_of(s, a, b)
}

/// The words of `s` from position `i` on, where `word` holds the characters of the word
/// that is being read: a word is a longest run of characters that are not white space.
pub open spec fn words_scan(s: Seq<char>, i: int, word: Seq<char>) -> Seq<Seq<char>>
    decreases s.len() - i,
{
    if i < 0 || i >= s.len() {
        if word.len() > 0 {
            seq![word]
        } else {
            Seq::empty()
        }
    } else if is_space(s[i]) {
        if word.len() > 0 {
            seq![word] + words_scan(s, i + 1, Seq::empty())
        } else {
            words_scan(s, i + 1, Seq::empty())
        }
    } else {
        words_scan(s, i + 1, word.push(s[i]))
    }
}

/// The words of `s`: its longest runs of characters that are not white space, in order.
pub open spec fn words(s: Seq<char>) -> Seq<Seq<char>> {
    words_scan(s, 0, Seq::empty())
}

/// The words of `s`.
pub fn split_whitespace(s: &Vec<char>) -> (out: Vec<Vec<char>>)
    ensures
        views(out@) == words(s@),
{
    let mut out: Vec<Vec<char>> = Vec::new();
    let mut word: Vec<char> = Vec::new();
    let mut i: usize = 0;
    while i < s.len()
        invariant
            i <= s.len(),
            words(s@) == views(out@) + words_scan(s@, i as int, word@),
        decreases s.len() - i,
    {
        let c = s[i];
        if is_whitespace(c) {
            if word.len() > 0 {
                let ghost before = views(out@);
                let ghost read = word@;
                out.push(word);
                assert(views(out@) =~= before + seq![read]);
                assert(before + (seq![read] + words_scan(s@, i + 1, Seq::empty())) =~= views(out@)
                    + words_scan(s@, i + 1, Seq::empty()));
                word = Vec::new();
            } else {
                assert(word@ =~= Seq::<char>::empty());
            }
        } else {
            word.push(c);
        }
        i += 1;
    }
    if word.len() > 0 {
        let ghost before = views(out@);
        let ghost read = word@;
        out.push(word);
        assert(views(out@) =~= before + seq![read]);
    }
    out
}

/// The parts put one after another, with `sep` between each two of them.
pub open spec fn joined(parts: Seq<Seq<char>>, sep: Seq<char>) -> Seq<char>
    decreases parts.len(),
{
    if parts.len() == 0 {
        Seq::empty()
    } else if parts.len() == 1 {
        parts[0]
    } else {
        joined(parts.drop_last(), sep) + sep + parts.last()
    }
}

/// The parts put one after another, with `sep` between each two of them.
pub fn join(parts: &Vec<Vec<char>>, sep: &Vec<char>) -> (out: Vec<char>)
    ensures
        out@ == joined(views(parts@), sep@),
{
    let mut out: Vec<char> = Vec::new();
    let mut i: usize = 0;
    while i < parts.len()
        invariant
            i <= parts.len(),
            out@ == joined(views(parts@).take(i as int), sep@),
        decreases parts.len() - i,
    {
        if i > 0 {
            append_text(&mut out, sep);
        }
        append_text(&mut out, &parts[i]);
        assert(views(parts@).take(i + 1).drop_last() =~= views(parts@).take(i as int));
        i += 1;
    }
    assert(views(parts@).take(parts.len() as int) =~= views(parts@));
    out
}


/// Whether `p` stands in `s` at position `i`.
pub open spec fn matches_at(s: Seq<char>, i: int, p: Seq<char>) -> bool {
    0 <= i && i + p.len() <= s.len() && s.subrange(i, i + p.len()) == p
}

/// Whether `p` stands in `s` at position `i`.
pub fn occurs_at(s: &Vec<char>, i: usize, p: &Vec<char>) -> (r: bool)
    ensures
        r == matches_at(s@, i as int, p@),
{
    if i > s.len() || p.len() > s.len() - i {
        return false;
    }
    let mut k: usize = 0;
    while k < p.len()
        invariant
            k <= p.len(),
            i + p.len() <= s.len(),
            s@.subrange(i as int, i + k) == p@.take(k as int),
        decreases p.len() - k,
    {
        if s[i + k] != p[k] {
            assert(s@.subrange(i as int, i + p.len())[k as int] != p@[k as int]);
            return false;
        }
        assert(s@.subrange(i as int, i + k + 1) =~= s@.subrange(i as int, i + k).push(
            s@[i + k],
        ));
        assert(p@.take(k + 1) =~= p@.take(k as int).push(p@[k as int]));
        k += 1;
    }
    assert(p@.take(p.len() as int) =~= p@);
    true
}

/// The first position at or after `i` at which `p` stands in `s`.
pub open spec fn find_from(s: Seq<char>, i: int, p: Seq<char>) -> Option<int>
    decreases s.len() + 1 - i,
{
    if i < 0 || i + p.len() > s.len() {
        None
    } else if matches_at(s, i, p) {
        Some(i)
    } else {
        find_from(s, i + 1, p)
    }
}

/// The first position at which `p` stands in `s`.
pub fn find(s: &Vec<char>, p: &Vec<char>) -> (r: Option<usize>)
    ensures
        match r {
            Some(k) => find_from(s@, 0, p@) == Some(k as int) && k + p.len() <= s.len(),
            None => find_from(s@, 0, p@) is None,
        },
{
    if p.len() > s.len() {
        return None;
    }
    let last: usize = s.len() - p.len();
    let mut i: usize = 0;
    while i < last
        invariant
            i <= last,
            last + p.len() == s.len(),
            find_from(s@, 0, p@) == find_from(s@, i as int, p@),
        decreases last - i,
    {
        if occurs_at(s, i, p) {
            return Some(i);
        }
        i += 1;
    }
    if occurs_at(s, last, p) {
        Some(last)
    } else {
        assert(find_from(s@, last + 1, p@) is None);
        None
    }
}

/// The last position below `j` at which `s` holds `c`.
pub open spec fn last_below(s: Seq<char>, c: char, j: int) -> Option<int>
    decreases j,
{
    if j <= 0 || j > s.len() {
        None
    } else if s[j - 1] == c {
        Some(j - 1)
    } else {
        last_below(s, c, j - 1)
    }
}

/// A position that is found holds the character and lies below the bound.
pub proof fn lemma_last_below(s: Seq<char>, c: char, j: int)
    requires
        0 <= j <= s.len(),
    ensures
        match last_below(s, c, j) {
            Some(k) => 0 <= k < j && s[k] == c,
            None => true,
        },
    decreases j,
{
    if j > 0 && s[j - 1] != c {
        lemma_last_below(s, c, j - 1);
    }
}

/// The last position at which `s` holds `c`.
pub open spec fn last_index(s: Seq<char>, c: char) -> Option<int> {
    last_below(s, c, s.len() as int)
}

/// The last position at which `s` holds `c`.
pub fn rfind_char(s: &Vec<char>, c: char) -> (r: Option<usize>)
    ensures
        match r {
            Some(k) => last_index(s@, c) == Some(k as int) && k < s.len(),
            None => last_index(s@, c) is None,
        },
{
    let mut j: usize = s.len();
    while j > 0
        invariant
            j <= s.len(),
            last_index(s@, c) == last_below(s@, c, j as int),
        decreases j,
    {
        if s[j - 1] == c {
            return Some(j - 1);
        }
        j -= 1;
    }
    None
}

/// `s` from position `i` on, with `to` in place of each occurrence of `p`, the occurrences
/// taken from the left and not overlapping. An empty `p` occurs nowhere.
pub open spec fn replace_from(s: Seq<char>, i: int, p: Seq<char>, to: Seq<char>) -> Seq<char>
    decreases s.len() - i,
{
    if i < 0 || i >= s.len() {
        Seq::empty()
    } else if p.len() > 0 && matches_at(s, i, p) {
        to + replace_from(s, i + p.len(), p, to)
    } else {
        seq![s[i]] + replace_from(s, i + 1, p, to)
    }
}

/// Whether `p` stands somewhere in `s`.
pub open spec fn occurs(s: Seq<char>, p: Seq<char>) -> bool {
    find_from(s, 0, p) is Some
}

/// Where nothing is found from a position on, `p` stands at no position from there on.
pub proof fn lemma_not_found(s: Seq<char>, i: int, p: Seq<char>, j: int)
    requires
        0 <= i <= j,
        find_from(s, i, p) is None,
    ensures
        !matches_at(s, j, p),
    decreases j - i,
{
    if i + p.len() <= s.len() && i < j {
        lemma_not_found(s, i + 1, p, j);
    }
}

/// A text in which `p` does not occur is left as it is.
pub proof fn lemma_replace_nothing(s: Seq<char>, i: int, p: Seq<char>, to: Seq<char>)
    requires
        0 <= i <= s.len(),
        !occurs(s, p),
    ensures
        replace_from(s, i, p, to) == s.skip(i),
    decreases s.len() - i,
{
    if i < s.len() {
        lemma_not_found(s, 0, p, i);
        lemma_replace_nothing(s, i + 1, p, to);
        assert(seq![s[i]] + s.skip(i + 1) =~= s.skip(i));
    } else {
        assert(s.skip(i) =~= Seq::<char>::empty());
    }
}

/// `s` with `to` in place of each occurrence of `p`.
pub open spec fn replaced(s: Seq<char>, p: Seq<char>, to: Seq<char>) -> Seq<char> {
    replace_from(s, 0, p, to)
}

/// `s` with `to` in place of each occurrence of `p`.
pub fn replace(s: &Vec<char>, p: &Vec<char>, to: &Vec<char>) -> (out: Vec<char>)
    ensures
        out@ == replaced(s@, p@, to@),
{
    let mut out: Vec<char> = Vec::new();
    let mut i: usize = 0;
    while i < s.len()
        invariant
            i <= s.len(),
            replaced(s@, p@, to@) == out@ + replace_from(s@, i as int, p@, to@),
        decreases s.len() - i,
    {
        let ghost before = out@;
        if p.len() > 0 && occurs_at(s, i, p) {
            append_text(&mut out, to);
            assert(before + (to@ + replace_from(s@, i + p.len(), p@, to@)) =~= out@
                + replace_from(s@, i + p.len(), p@, to@));
            i += p.len();
        } else {
            out.push(s[i]);
            assert(before + (seq![s@[i as int]] + replace_from(s@, i + 1, p@, to@)) =~= out@
                + replace_from(s@, i + 1, p@, to@));
            i += 1;
        }
    }
    assert(out@ + Seq::<char>::empty() =~= out@);
    out
}

/// The pieces of `s` from position `i` on that lie between the occurrences of `p`, where
/// `piece` holds the characters of the piece that is being read. There is always a last
/// piece, which may be empty. An empty `p` occurs nowhere.
pub open spec fn pieces_scan(s: Seq<char>, i: int, piece: Seq<char>, p: Seq<char>) -> Seq<
    Seq<char>,
>
    decreases s.len() - i,
{
    if i < 0 || i >= s.len() {
        seq![piece]
    } else if p.len() > 0 && matches_at(s, i, p) {
        seq![piece] + pieces_scan(s, i + p.len(), Seq::empty(), p)
    } else {
        pieces_scan(s, i + 1, piece.push(s[i]), p)
    }
}

/// The pieces of `s` that lie between the occurrences of `p`.
pub open spec fn pieces(s: Seq<char>, p: Seq<char>) -> Seq<Seq<char>> {
    pieces_scan(s, 0, Seq::empty(), p)
}

/// The pieces of `s` that lie between the occurrences of `p`.
pub fn split(s: &Vec<char>, p: &Vec<char>) -> (out: Vec<Vec<char>>)
    ensures
        views(out@) == pieces(s@, p@),
{
    let mut out: Vec<Vec<char>> = Vec::new();
    let mut piece: Vec<char> = Vec::new();
    let mut i: usize = 0;
    while i < s.len()
        invariant
            i <= s.len(),
            pieces(s@, p@) == views(out@) + pieces_scan(s@, i as int, piece@, p@),
        decreases s.len() - i,
    {
        if p.len() > 0 && occurs_at(s, i, p) {
            let ghost before = views(out@);
            let ghost read = piece@;
            out.push(piece);
            assert(views(out@) =~= before + seq![read]);
            assert(before + (seq![read] + pieces_scan(s@, i + p.len(), Seq::empty(), p@))
                =~= views(out@) + pieces_scan(s@, i + p.len(), Seq::empty(), p@));
            piece = Vec::new();
            i += p.len();
        } else {
            piece.push(s[i]);
            i += 1;
        }
    }
    let ghost before = views(out@);
    let ghost read = piece@;
    out.push(piece);
    assert(views(out@) =~= before + seq![read]);
    out
}

/// `line` without a carriage return at its end.
pub open spec fn without_return(line: Seq<char>) -> Seq<char> {
    if line.len() > 0 && line.last() == '\r' {
        line.drop_last()
    } else {
        line
    }
}

/// The lines of `s` from position `i` on, where `line` holds the characters of the line
/// that is being read. A line ends at a line feed; the line feed, and a carriage return
/// just before it, are not part of the line. What follows the last line feed is a line
/// unless it is empty.
pub open spec fn lines_scan(s: Seq<char>, i: int, line: Seq<char>) -> Seq<Seq<char>>
    decreases s.len() - i,
{
    if i < 0 || i >= s.len() {
        if line.len() > 0 {
            seq![line]
        } else {
            Seq::empty()
        }
    } else if s[i] == '\n' {
        seq![without_return(line)] + lines_scan(s, i + 1, Seq::empty())
    } else {
        lines_scan(s, i + 1, line.push(s[i]))
    }
}

/// The lines of `s`.
pub open spec fn lines_of(s: Seq<char>) -> Seq<Seq<char>> {
    lines_scan(s, 0, Seq::empty())
}

/// The lines of `s`.
pub fn lines(s: &Vec<char>) -> (out: Vec<Vec<char>>)
    ensures
        views(out@) == lines_of(s@),
{
    let mut out: Vec<Vec<char>> = Vec::new();
    let mut line: Vec<char> = Vec::new();
    let mut i: usize = 0;
    while i < s.len()
        invariant
            i <= s.len(),
            lines_of(s@) == views(out@) + lines_scan(s@, i as int, line@),
        decreases s.len() - i,
    {
        let c = s[i];
        if c == '\n' {
            let ghost before = views(out@);
            let ghost whole = line@;
            if line.len() > 0 && line[line.len() - 1] == '\r' {
                line.pop();
            }
            let ghost read = line@;
            assert(read == without_return(whole));
            out.push(line);
            assert(views(out@) =~= before + seq![read]);
            assert(before + (seq![read] + lines_scan(s@, i + 1, Seq::empty())) =~= views(out@)
                + lines_scan(s@, i + 1, Seq::empty()));
            line = Vec::new();
        } else {
            line.push(c);
        }
        i += 1;
    }
    if line.len() > 0 {
        let ghost before = views(out@);
        let ghost read = line@;
        out.push(line);
        assert(views(out@) =~= before + seq![read]);
    } else {
        assert(views(out@) + Seq::<Seq<char>>::empty() =~= views(out@));
    }
    out
}


/// A copy of the parts from position `from` on.
pub fn tail(parts: &Vec<Vec<char>>, from: usize) -> (out: Vec<Vec<char>>)
    requires
        from <= parts.len(),
    ensures
        views(out@) == views(parts@).skip(from as int),
{
    let mut out: Vec<Vec<char>> = Vec::new();
    let mut i: usize = from;
    while i < parts.len()
        invariant
            from <= i <= parts.len(),
            views(out@) == views(parts@).subrange(from as int, i as int),
        decreases parts.len() - i,
    {
        let ghost before = views(out@);
        let part = slice_of(&parts[i], 0, parts[i].len());
        assert(part@ =~= parts@[i as int]@);
        out.push(part);
        assert(views(out@) =~= before.push(parts@[i as int]@));
        assert(views(parts@).subrange(from as int, i + 1) =~= views(parts@).subrange(
            from as int,
            i as int,
        ).push(parts@[i as int]@));
        i += 1;
    }
    assert(views(parts@).subrange(from as int, parts.len() as int) =~= views(parts@).skip(
        from as int,
    ));
    out
}


/// A line as it was read, without the line feed at its end and the carriage return
/// before that.
pub open spec fn without_line_end(s: Seq<char>) -> Seq<char> {
    if s.len() > 0 && s.last() == '\n' {
        without_return(s.drop_last())
    } else {
        s
    }
}

/// A line as it was read, without its line end.
pub fn strip_line_end(s: &Vec<char>) -> (out: Vec<char>)
    ensures
        out@ == without_line_end(s@),
{
    let n = s.len();
    if n > 0 && s[n - 1] == '\n' {
        if n > 1 && s[n - 2] == '\r' {
            let out = slice_of(s, 0, n - 2);
            assert(out@ =~= s@.drop_last().drop_last());
            out
        } else {
            let out = slice_of(s, 0, n - 1);
            assert(out@ =~= s@.drop_last());
            out
        }
    } else {
        let out = slice_of(s, 0, n);
        assert(out@ =~= s@);
        out
    }
}

} // verus!
