//! Operations on text that the rest of the library builds on.
use vstd::prelude::*;
use vstd::string::*;

verus! {

/// The texts `parts` in a row with `sep` between each two.
pub open spec fn joined(parts: Seq<Seq<char>>, sep: Seq<char>) -> Seq<char>
    decreases parts.len(),
{
    if parts.len() == 0 {
        Seq::empty()
    } else if parts.len() == 1 {
        parts[0]
    } else {
        joined(parts.drop_last(), sep) + sep + parts.last()
    }
}

/// Joins `parts` with `sep` between each two.
pub fn join(parts: &Vec<String>, sep: &str) -> (r: String)
    ensures
        r@ == joined(crate::model::texts(parts@), sep@),
{
    let ghost all = crate::model::texts(parts@);
    let mut out = String::new();
    let mut i: usize = 0;
    while i < parts.len()
        invariant
            i <= parts.len(),
            all == crate::model::texts(parts@),
            out@ == joined(all.take(i as int), sep@),
        decreases parts.len() - i,
    {
        if i > 0 {
            out.append(sep);
        }
        out.append(parts[i].as_str());
        proof {
            let next = all.take(i + 1);
            assert(next.drop_last() =~= all.take(i as int));
            assert(next.last() == parts[i as int]@);
            if i == 0 {
                assert(out@ =~= next[0]);
            }
        }
        i += 1;
    }
    proof {
        assert(all.take(i as int) =~= all);
    }
    out
}

/// Whether two strings hold the same text.
pub fn same_text(a: &str, b: &str) -> (r: bool)
    ensures
        r == (a@ == b@),
{
    let n = a.unicode_len();
    if n != b.unicode_len() {
        return false;
    }
    let mut i: usize = 0;
    while i < n
        invariant
            i <= n,
            n == a@.len(),
            n == b@.len(),
            forall|j: int| 0 <= j < i ==> a@[j] == b@[j],
        decreases n - i,
    {
        if a.get_char(i) != b.get_char(i) {
            return false;
        }
        i += 1;
    }
    proof {
        assert(a@ =~= b@);
    }
    true
}

/// Whether `s` begins with `prefix`.
pub fn starts_with(s: &str, prefix: &str) -> (r: bool)
    ensures
        r == prefix@.is_prefix_of(s@),
{
    let n = prefix.unicode_len();
    if n > s.unicode_len() {
        return false;
    }
    let mut i: usize = 0;
    while i < n
        invariant
            i <= n,
            n == prefix@.len(),
            n <= s@.len(),
            forall|j: int| 0 <= j < i ==> s@[j] == prefix@[j],
        decreases n - i,
    {
        if s.get_char(i) != prefix.get_char(i) {
            return false;
        }
        i += 1;
    }
    proof {
        assert(prefix@ =~= s@.subrange(0, n as int));
    }
    true
}

/// The place of the first line feed in `s`, or the length of `s` if
/// it holds none.
pub open spec fn first_newline(s: Seq<char>) -> int
    decreases s.len(),
{
    if s.len() == 0 {
        0
    } else if s[0] == '\n' {
        0
    } else {
        1 + first_newline(s.drop_first())
    }
}

/// `line` without a carriage return at its end.
pub open spec fn strip_cr(line: Seq<char>) -> Seq<char> {
    if line.len() > 0 && line.last() == '\r' {
        line.drop_last()
    } else {
        line
    }
}

/// The lines of `s`. A line ends at a line feed, or at a carriage
/// return and a line feed; neither belongs to the line. What follows
/// the last line feed is a line of its own unless it is empty.
pub open spec fn lines(s: Seq<char>) -> Seq<Seq<char>>
    decreases s.len(),
    via lines_decreases
{
    if s.len() == 0 {
        Seq::empty()
    } else {
        let n = first_newline(s);
        if n >= s.len() {
            seq![s]
        } else {
            seq![strip_cr(s.subrange(0, n))] + lines(s.subrange(n + 1, s.len() as int))
        }
    }
}

#[via_fn]
proof fn lines_decreases(s: Seq<char>) {
    if s.len() > 0 {
        lemma_first_newline(s);
    }
}

/// `first_newline` finds a line feed, and none stands before it.
pub proof fn lemma_first_newline(s: Seq<char>)
    ensures
        0 <= first_newline(s) <= s.len(),
        first_newline(s) < s.len() ==> s[first_newline(s)] == '\n',
        forall|j: int| 0 <= j < first_newline(s) ==> s[j] != '\n',
    decreases s.len(),
{
    if s.len() > 0 && s[0] != '\n' {
        let rest = s.drop_first();
        lemma_first_newline(rest);
        assert forall|j: int| 0 <= j < first_newline(s) implies s[j] != '\n' by {
            if j > 0 {
                assert(s[j] == rest[j - 1]);
            }
        }
    }
}

/// The place of the first line feed is the one place that holds a
/// line feed with none before it.
pub proof fn lemma_first_newline_at(s: Seq<char>, n: int)
    requires
        0 <= n <= s.len(),
        n < s.len() ==> s[n] == '\n',
        forall|j: int| 0 <= j < n ==> s[j] != '\n',
    ensures
        first_newline(s) == n,
{
    lemma_first_newline(s);
    let m = first_newline(s);
    if m < n {
        assert(s[m] == '\n');
    } else if n < m {
        assert(s[n] != '\n');
    }
}

/// Splits `s` into its lines.
pub fn split_lines(s: &str) -> (r: Vec<String>)
    ensures
        crate::model::texts(r@) == lines(s@),
{
    let n = s.unicode_len();
    let mut out: Vec<String> = Vec::new();
    let mut start: usize = 0;
    let mut i: usize = 0;
    proof {
        assert(s@.subrange(0, n as int) =~= s@);
        assert(crate::model::texts(out@) =~= Seq::<Seq<char>>::empty());
    }
    while i < n
        invariant
            start <= i <= n,
            n == s@.len(),
            forall|j: int| start <= j < i ==> s@[j] != '\n',
            crate::model::texts(out@) + lines(s@.subrange(start as int, n as int)) == lines(s@),
        decreases n - i,
    {
        if s.get_char(i) == '\n' {
            let end = if i > start && s.get_char(i - 1) == '\r' {
                i - 1
            } else {
                i
            };
            let line = s.substring_char(start, end).to_owned();
            proof {
                let rest = s@.subrange(start as int, n as int);
                lemma_first_newline_at(rest, i - start);
                assert(rest.subrange(0, i - start) =~= s@.subrange(start as int, i as int));
                assert(rest.subrange(i - start + 1, rest.len() as int) =~= s@.subrange(
                    i + 1,
                    n as int,
                ));
                assert(line@ =~= strip_cr(s@.subrange(start as int, i as int)));
                assert(crate::model::texts(out@.push(line)) =~= crate::model::texts(
                    out@,
                ).push(line@));
                assert(crate::model::texts(out@).push(line@) + lines(s@.subrange(i + 1, n as int))
                    =~= crate::model::texts(out@) + lines(rest));
            }
            out.push(line);
            start = i + 1;
        }
        i += 1;
    }
    if start < n {
        let line = s.substring_char(start, n).to_owned();
        proof {
            let rest = s@.subrange(start as int, n as int);
            lemma_first_newline_at(rest, n - start);
            assert(lines(rest) =~= seq![rest]);
            assert(crate::model::texts(out@.push(line)) =~= crate::model::texts(
                out@,
            ).push(line@));
        }
        out.push(line);
    } else {
        proof {
            assert(s@.subrange(start as int, n as int) =~= Seq::<char>::empty());
            assert(crate::model::texts(out@) + Seq::<Seq<char>>::empty() =~= crate::model::texts(
                out@,
            ));
        }
    }
    out
}


/// Whether `a` stands before `b` in the order of a dictionary, by
/// the characters' code points, when the two agree before place
/// `from`.
pub open spec fn before_from(a: Seq<char>, b: Seq<char>, from: nat) -> bool
    decreases a.len() - from,
{
    if from >= b.len() {
        false
    } else if from >= a.len() {
        true
    } else if a[from as int] != b[from as int] {
        (a[from as int] as int) < (b[from as int] as int)
    } else {
        before_from(a, b, from + 1)
    }
}

/// Whether `a` stands before `b` in the order of a dictionary, by
/// the characters' code points.
pub open spec fn before(a: Seq<char>, b: Seq<char>) -> bool {
    before_from(a, b, 0)
}

/// The order of a dictionary goes on: what stands before a text
/// that stands before a third stands before the third.
pub proof fn lemma_before_transitive(a: Seq<char>, b: Seq<char>, c: Seq<char>, from: nat)
    requires
        before_from(a, b, from),
        before_from(b, c, from),
    ensures
        before_from(a, c, from),
    decreases a.len() - from,
{
    if from < a.len() && a[from as int] == b[from as int] && b[from as int] == c[from as int] {
        lemma_before_transitive(a, b, c, from + 1);
    }
}

/// No text stands before itself.
pub proof fn lemma_before_irreflexive(a: Seq<char>, from: nat)
    ensures
        !before_from(a, a, from),
    decreases a.len() - from,
{
    if from < a.len() {
        lemma_before_irreflexive(a, from + 1);
    }
}

/// Of two different texts one stands before the other.
pub proof fn lemma_before_total(a: Seq<char>, b: Seq<char>, from: nat)
    requires
        forall|i: int| 0 <= i < from && i < a.len() && i < b.len() ==> a[i] == b[i],
        from <= a.len(),
        from <= b.len(),
        a != b,
    ensures
        before_from(a, b, from) || before_from(b, a, from),
    decreases a.len() - from,
{
    if from < a.len() && from < b.len() {
        if a[from as int] == b[from as int] {
            lemma_before_total(a, b, from + 1);
        }
    } else if from >= a.len() && from >= b.len() {
        assert(a =~= b);
    }
}

/// Whether `a` stands before `b` in the order of a dictionary.
pub fn text_before(a: &str, b: &str) -> (r: bool)
    ensures
        r == before(a@, b@),
{
    let n = a.unicode_len();
    let m = b.unicode_len();
    let mut i: usize = 0;
    while i < n && i < m
        invariant
            n == a@.len(),
            m == b@.len(),
            i <= n,
            i <= m,
            before_from(a@, b@, i as nat) == before(a@, b@),
        decreases n - i,
    {
        let x = a.get_char(i);
        let y = b.get_char(i);
        if x != y {
            return (x as u32) < (y as u32);
        }
        i += 1;
    }
    i < m
}


/// The digit for a number below ten.
pub open spec fn digit_text(d: nat) -> Seq<char> {
    if d == 0 {
        "0"@
    } else if d == 1 {
        "1"@
    } else if d == 2 {
        "2"@
    } else if d == 3 {
        "3"@
    } else if d == 4 {
        "4"@
    } else if d == 5 {
        "5"@
    } else if d == 6 {
        "6"@
    } else if d == 7 {
        "7"@
    } else if d == 8 {
        "8"@
    } else {
        "9"@
    }
}

/// A number written in base ten, without leading zeros.
pub open spec fn decimal_text(n: nat) -> Seq<char>
    decreases n,
{
    if n < 10 {
        digit_text(n)
    } else {
        decimal_text(n / 10) + digit_text(n % 10)
    }
}

fn digit(d: u32) -> (r: &'static str)
    requires
        d < 10,
    ensures
        r@ == digit_text(d as nat),
{
    if d == 0 {
        "0"
    } else if d == 1 {
        "1"
    } else if d == 2 {
        "2"
    } else if d == 3 {
        "3"
    } else if d == 4 {
        "4"
    } else if d == 5 {
        "5"
    } else if d == 6 {
        "6"
    } else if d == 7 {
        "7"
    } else if d == 8 {
        "8"
    } else {
        "9"
    }
}

/// Writes a number in base ten.
pub fn decimal(n: u32) -> (r: String)
    ensures
        r@ == decimal_text(n as nat),
    decreases n,
{
    if n < 10 {
        String::from_str(digit(n))
    } else {
        let mut out = decimal(n / 10);
        out.append(digit(n % 10));
        out
    }
}


/// Whether `needle` occurs in `hay` as a run of characters.
pub open spec fn occurs_in(needle: Seq<char>, hay: Seq<char>) -> bool {
    exists|i: int|
        0 <= i && i + needle.len() <= hay.len() && #[trigger] hay.subrange(i, i + needle.len())
            == needle
}

/// Whether `hay` holds `needle`.
pub fn contains_text(hay: &str, needle: &str) -> (r: bool)
    ensures
        r == occurs_in(needle@, hay@),
{
    let h = hay.unicode_len();
    let n = needle.unicode_len();
    if n > h {
        return false;
    }
    let mut i: usize = 0;
    while i <= h - n
        invariant
            h == hay@.len(),
            n == needle@.len(),
            n <= h,
            i <= h - n + 1,
            forall|j: int| 0 <= j < i ==> #[trigger] hay@.subrange(j, j + n) != needle@,
        decreases h - n + 1 - i,
    {
        let rest = hay.substring_char(i, h);
        if starts_with(rest, needle) {
            proof {
                assert(rest@.subrange(0, n as int) =~= hay@.subrange(i as int, i + n));
            }
            return true;
        }
        proof {
            if hay@.subrange(i as int, i + n) == needle@ {
                assert(rest@.subrange(0, n as int) =~= hay@.subrange(i as int, i + n));
                assert(needle@.is_prefix_of(rest@));
            }
        }
        i += 1;
    }
    false
}

/// The pieces of `s` between its line feeds. A text without a line
/// feed is one piece, and a line feed at the end is followed by an
/// empty piece.
pub open spec fn pieces(s: Seq<char>) -> Seq<Seq<char>>
    decreases s.len(),
    via pieces_decreases
{
    let n = first_newline(s);
    if n >= s.len() {
        seq![s]
    } else {
        seq![s.subrange(0, n)] + pieces(s.subrange(n + 1, s.len() as int))
    }
}

#[via_fn]
proof fn pieces_decreases(s: Seq<char>) {
    lemma_first_newline(s);
}

/// Splits `s` at every line feed.
pub fn split_newlines(s: &str) -> (r: Vec<String>)
    ensures
        crate::model::texts(r@) == pieces(s@),
{
    let n = s.unicode_len();
    let mut out: Vec<String> = Vec::new();
    let mut start: usize = 0;
    let mut i: usize = 0;
    proof {
        assert(s@.subrange(0, n as int) =~= s@);
        assert(crate::model::texts(out@) =~= Seq::<Seq<char>>::empty());
        assert(Seq::<Seq<char>>::empty() + pieces(s@) =~= pieces(s@));
    }
    while i < n
        invariant
            start <= i <= n,
            n == s@.len(),
            forall|j: int| start <= j < i ==> s@[j] != '\n',
            crate::model::texts(out@) + pieces(s@.subrange(start as int, n as int)) == pieces(s@),
        decreases n - i,
    {
        if s.get_char(i) == '\n' {
            let piece = s.substring_char(start, i).to_owned();
            proof {
                let rest = s@.subrange(start as int, n as int);
                lemma_first_newline_at(rest, i - start);
                assert(rest.subrange(0, i - start) =~= s@.subrange(start as int, i as int));
                assert(rest.subrange(i - start + 1, rest.len() as int) =~= s@.subrange(
                    i + 1,
                    n as int,
                ));
                assert(crate::model::texts(out@.push(piece)) =~= crate::model::texts(out@).push(
                    piece@,
                ));
                assert(crate::model::texts(out@).push(piece@) + pieces(s@.subrange(i + 1, n as int))
                    =~= crate::model::texts(out@) + pieces(rest));
            }
            out.push(piece);
            start = i + 1;
        }
        i += 1;
    }
    let piece = s.substring_char(start, n).to_owned();
    proof {
        let rest = s@.subrange(start as int, n as int);
        lemma_first_newline_at(rest, n - start);
        assert(pieces(rest) =~= seq![rest]);
        assert(crate::model::texts(out@.push(piece)) =~= crate::model::texts(out@).push(piece@));
    }
    out.push(piece);
    out
}

} // verus!
