//! Line-oriented parser for the INI-like effect catalog.
//!
//! The grammar is tolerant of `\r\n` and `\n` line endings.  A line is, in
//! order: blank (line whitespace only), comment (optional leading whitespace
//! then `;` or `#`), section header (optional leading whitespace, `[`, a
//! non-empty name without `]` or CR, `]` at end of line), or key-value
//! (optional leading whitespace, a non-empty key without `=`, space, tab or
//! CR, optional whitespace, `=`, then the verbatim remainder of the line).
//! Blank and comment lines are skipped everywhere; any other line that fits
//! no class — or a key-value line before the first section header — is a
//! hard parse error reported by line number.

use vstd::prelude::*;

verus! {

/// Whitespace inside a line: space or tab.
pub open spec fn is_line_ws(c: char) -> bool {
    c == ' ' || c == '\t'
}

/// Characters a key may consist of: anything but `=`, space, tab, CR, LF.
pub open spec fn is_key_char(c: char) -> bool {
    c != '=' && c != ' ' && c != '\t' && c != '\r' && c != '\n'
}

/// Length of the run of line whitespace at the front of `l`.
pub open spec fn lead_ws(l: Seq<char>) -> int
    decreases l.len(),
{
    if l.len() == 0 || !is_line_ws(l[0]) {
        0
    } else {
        1 + lead_ws(l.drop_first())
    }
}

/// Length of the run of key characters at the front of `l`.
pub open spec fn key_run(l: Seq<char>) -> int
    decreases l.len(),
{
    if l.len() == 0 || !is_key_char(l[0]) {
        0
    } else {
        1 + key_run(l.drop_first())
    }
}

/// `lead_ws` is exactly the first position whose character is not line
/// whitespace (or the length, if all of `l` is whitespace).
pub proof fn lemma_lead_ws_is(l: Seq<char>, i: int)
    requires
        0 <= i <= l.len(),
        forall|k: int| 0 <= k < i ==> is_line_ws(l[k]),
        i < l.len() ==> !is_line_ws(l[i]),
    ensures
        lead_ws(l) == i,
    decreases l.len(),
{
    if i == 0 {
    } else {
        assert(is_line_ws(l[0]));
        assert forall|k: int| 0 <= k < i - 1 implies is_line_ws(l.drop_first()[k]) by {
            assert(l.drop_first()[k] == l[k + 1]);
        }
        assert(i - 1 < l.drop_first().len() ==> !is_line_ws(l.drop_first()[i - 1]));
        lemma_lead_ws_is(l.drop_first(), i - 1);
    }
}

/// `key_run` is exactly the first position whose character is not a key
/// character (or the length, if all of `l` is key characters).
pub proof fn lemma_key_run_is(l: Seq<char>, i: int)
    requires
        0 <= i <= l.len(),
        forall|k: int| 0 <= k < i ==> is_key_char(l[k]),
        i < l.len() ==> !is_key_char(l[i]),
    ensures
        key_run(l) == i,
    decreases l.len(),
{
    if i == 0 {
    } else {
        assert(is_key_char(l[0]));
        assert forall|k: int| 0 <= k < i - 1 implies is_key_char(l.drop_first()[k]) by {
            assert(l.drop_first()[k] == l[k + 1]);
        }
        assert(i - 1 < l.drop_first().len() ==> !is_key_char(l.drop_first()[i - 1]));
        lemma_key_run_is(l.drop_first(), i - 1);
    }
}

/// Drops a single carriage return left at the end of a line by a `\r\n`
/// terminator.
pub open spec fn strip_cr(l: Seq<char>) -> Seq<char> {
    if l.len() > 0 && l.last() == '\r' {
        l.drop_last()
    } else {
        l
    }
}

/// Splits `t` into lines at `\n`, stripping one `\r` before each `\n`.
/// `cur` is the part of the current line already consumed.  A final line
/// without a terminator still counts; a trailing terminator adds no line.
pub open spec fn split_lines_acc(t: Seq<char>, cur: Seq<char>) -> Seq<Seq<char>>
    decreases t.len(),
{
    if t.len() == 0 {
        if cur.len() == 0 {
            Seq::empty()
        } else {
            seq![cur]
        }
    } else if t[0] == '\n' {
        seq![strip_cr(cur)] + split_lines_acc(t.drop_first(), Seq::empty())
    } else {
        split_lines_acc(t.drop_first(), cur.push(t[0]))
    }
}

/// The lines of `t`, in file order.
pub open spec fn split_lines(t: Seq<char>) -> Seq<Seq<char>> {
    split_lines_acc(t, Seq::empty())
}

/// A line of only line whitespace.
pub open spec fn is_blank_line(l: Seq<char>) -> bool {
    lead_ws(l) == l.len()
}

/// Optional leading whitespace, then `;` or `#`; the rest is ignored.
pub open spec fn is_comment_line(l: Seq<char>) -> bool {
    lead_ws(l) < l.len() && (l[lead_ws(l)] == ';' || l[lead_ws(l)] == '#')
}

/// A line the parser skips: blank or comment.
pub open spec fn is_skip_line(l: Seq<char>) -> bool {
    is_blank_line(l) || is_comment_line(l)
}

/// Optional leading whitespace, `[`, a non-empty name free of `]` and CR,
/// then `]` closing the line.
pub open spec fn is_header_line(l: Seq<char>) -> bool {
    let j = lead_ws(l);
    &&& j < l.len()
    &&& l[j] == '['
    &&& l.len() - j >= 3
    &&& l[l.len() - 1] == ']'
    &&& forall|k: int| j + 1 <= k < l.len() - 1 ==> l[k] != ']' && l[k] != '\r'
}

/// The section name between the brackets.
pub open spec fn header_name(l: Seq<char>) -> Seq<char> {
    l.subrange(lead_ws(l) + 1, l.len() - 1)
}

/// Position one past the key: the end of the run of key characters that
/// starts after the leading whitespace.
pub open spec fn key_end(l: Seq<char>) -> int {
    lead_ws(l) + key_run(l.skip(lead_ws(l)))
}

/// Position of the `=` separator: first non-whitespace position after the
/// key.
pub open spec fn eq_pos(l: Seq<char>) -> int {
    key_end(l) + lead_ws(l.skip(key_end(l)))
}

/// Where the value starts: first non-whitespace position after the `=`.
pub open spec fn val_start(l: Seq<char>) -> int {
    eq_pos(l) + 1 + lead_ws(l.skip(eq_pos(l) + 1))
}

/// Optional leading whitespace, a non-empty key, the `=` with optional
/// whitespace around it, and a remainder free of CR.
pub open spec fn is_kv_line(l: Seq<char>) -> bool {
    let j = lead_ws(l);
    let k = key_end(l);
    let m = eq_pos(l);
    &&& k > j
    &&& m < l.len()
    &&& l[m] == '='
    &&& forall|x: int| val_start(l) <= x < l.len() ==> l[x] != '\r'
}

/// The key of a key-value line.
pub open spec fn kv_key(l: Seq<char>) -> Seq<char> {
    l.subrange(lead_ws(l), key_end(l))
}

/// The value of a key-value line: the rest of the line once the whitespace
/// after `=` is consumed, verbatim from there (a possibly empty sequence).
pub open spec fn kv_value(l: Seq<char>) -> Seq<char> {
    l.subrange(val_start(l), l.len() as int)
}

/// Mathematical model of a parsed section: its name and its key-value
/// entries, both in file order, duplicates preserved.
pub ghost struct SectionModel {
    pub name: Seq<char>,
    pub entries: Seq<(Seq<char>, Seq<char>)>,
}

/// One section of the catalog: the bracketed name and the key-value entries
/// in file order.  Duplicate keys are all preserved.
#[derive(Debug)]
pub struct ParsedSection {
    pub name: String,
    pub entries: Vec<(String, String)>,
}

/// The model of an entry list: each pair as its character sequences.
pub open spec fn entries_view(es: Seq<(String, String)>) -> Seq<(Seq<char>, Seq<char>)> {
    es.map_values(|e: (String, String)| (e.0@, e.1@))
}

impl View for ParsedSection {
    type V = SectionModel;

    open spec fn view(&self) -> SectionModel {
        SectionModel { name: self.name@, entries: entries_view(self.entries@) }
    }
}

/// The model of a section list: each section as its model.
pub open spec fn secs_view(v: Seq<ParsedSection>) -> Seq<SectionModel> {
    v.map_values(|s: ParsedSection| s@)
}

/// A hard parse failure, localized by the index of the offending line
/// (counting every line of the input from zero).
#[derive(Debug)]
pub struct ParseError {
    pub line: usize,
}

/// Processes `lines[i..]` with the sections built so far in `acc`: skips
/// blank and comment lines, opens a section per header line, appends each
/// key-value line to the most recent section, and fails on the first line
/// that fits no class or on a key-value line before any section.
pub open spec fn parse_from(lines: Seq<Seq<char>>, i: int, acc: Seq<SectionModel>) -> Result<
    Seq<SectionModel>,
    int,
>
    decreases lines.len() - i,
{
    if i < 0 || i >= lines.len() {
        Ok(acc)
    } else {
        let l = lines[i];
        if is_skip_line(l) {
            parse_from(lines, i + 1, acc)
        } else if is_header_line(l) {
            parse_from(lines, i + 1, acc.push(SectionModel { name: header_name(l), entries: Seq::empty() }))
        } else if is_kv_line(l) {
            if acc.len() == 0 {
                Err(i)
            } else {
                parse_from(
                    lines,
                    i + 1,
                    acc.update(
                        acc.len() - 1,
                        SectionModel {
                            name: acc.last().name,
                            entries: acc.last().entries.push((kv_key(l), kv_value(l))),
                        },
                    ),
                )
            }
        } else {
            Err(i)
        }
    }
}

/// The parse of a whole text: its sections in file order, or the index of
/// the first offending line.
pub open spec fn parse_spec(t: Seq<char>) -> Result<Seq<SectionModel>, int> {
    parse_from(split_lines(t), 0, Seq::empty())
}

/// The line contents denoted by a vector of `(start, end)` spans into `t`.
pub open spec fn span_lines(spans: Seq<(usize, usize)>, t: Seq<char>) -> Seq<Seq<char>> {
    spans.map_values(|p: (usize, usize)| t.subrange(p.0 as int, p.1 as int))
}

/// Finds the `(start, end)` character spans of the lines of `text`, with
/// line terminators (and the `\r` of a `\r\n`) excluded.
fn find_line_spans(text: &str) -> (r: Vec<(usize, usize)>)
    ensures
        span_lines(r@, text@) == split_lines(text@),
        forall|k: int| 0 <= k < r@.len() ==> #[trigger] r@[k].0 <= r@[k].1 <= text@.len(),
{
    let n = text.unicode_len();
    let mut spans: Vec<(usize, usize)> = Vec::new();
    let mut start: usize = 0;
    let mut i: usize = 0;
    proof {
        assert(text@.skip(0) =~= text@);
        assert(text@.subrange(0, 0) =~= Seq::<char>::empty());
        assert(span_lines(spans@, text@) =~= Seq::<Seq<char>>::empty());
        assert(span_lines(spans@, text@) + split_lines_acc(text@.skip(0), text@.subrange(0, 0))
            =~= split_lines(text@));
    }
    while i < n
        invariant
            n == text@.len(),
            start <= i <= n,
            forall|k: int| 0 <= k < spans@.len() ==> #[trigger] spans@[k].0 <= spans@[k].1 <= n,
            split_lines(text@) == span_lines(spans@, text@) + split_lines_acc(
                text@.skip(i as int),
                text@.subrange(start as int, i as int),
            ),
        decreases n - i,
    {
        let ghost cur = text@.subrange(start as int, i as int);
        let ghost rest = text@.skip(i as int);
        proof {
            assert(rest.len() > 0);
            assert(rest[0] == text@[i as int]);
            assert(rest.drop_first() =~= text@.skip(i as int + 1));
        }
        let c = text.get_char(i);
        if c == '\n' {
            let ce: usize = if i > start && text.get_char(i - 1) == '\r' {
                i - 1
            } else {
                i
            };
            proof {
                if i > start && text@[i as int - 1] == '\r' {
                    assert(cur.len() > 0);
                    assert(cur.last() == text@[i as int - 1]);
                    assert(strip_cr(cur) =~= text@.subrange(start as int, ce as int));
                } else {
                    if cur.len() > 0 {
                        assert(cur.last() == text@[i as int - 1]);
                    }
                    assert(strip_cr(cur) =~= text@.subrange(start as int, ce as int));
                }
            }
            let ghost old_spans = spans@;
            spans.push((start, ce));
            proof {
                assert forall|k: int| 0 <= k < spans@.len() implies #[trigger] spans@[k].0
                    <= spans@[k].1 <= n by {
                    if k < old_spans.len() {
                        assert(spans@[k] == old_spans[k]);
                    } else {
                        assert(spans@[k] == (start, ce));
                    }
                }
                assert(span_lines(spans@, text@) =~= span_lines(old_spans, text@).push(
                    text@.subrange(start as int, ce as int),
                ));
                assert(split_lines_acc(rest, cur) == seq![strip_cr(cur)] + split_lines_acc(
                    rest.drop_first(),
                    Seq::empty(),
                ));
                assert(span_lines(spans@, text@) + split_lines_acc(
                    text@.skip(i as int + 1),
                    Seq::<char>::empty(),
                ) =~= span_lines(old_spans, text@) + (seq![
                    text@.subrange(start as int, ce as int),
                ] + split_lines_acc(text@.skip(i as int + 1), Seq::<char>::empty())));
                assert(text@.subrange(i as int + 1, i as int + 1) =~= Seq::<char>::empty());
            }
            start = i + 1;
        } else {
            proof {
                assert(split_lines_acc(rest, cur) == split_lines_acc(
                    rest.drop_first(),
                    cur.push(text@[i as int]),
                ));
                assert(cur.push(text@[i as int]) =~= text@.subrange(start as int, i as int + 1));
            }
        }
        i += 1;
    }
    proof {
        assert(text@.skip(n as int) =~= Seq::<char>::empty());
    }
    if start < n {
        let ghost old_spans = spans@;
        spans.push((start, n));
        proof {
            let cur = text@.subrange(start as int, n as int);
            assert(cur.len() > 0);
            assert(split_lines_acc(Seq::<char>::empty(), cur) == seq![cur]);
            assert forall|k: int| 0 <= k < spans@.len() implies #[trigger] spans@[k].0
                <= spans@[k].1 <= text@.len() by {
                if k < old_spans.len() {
                    assert(spans@[k] == old_spans[k]);
                } else {
                    assert(spans@[k] == (start, n));
                }
            }
            assert(span_lines(spans@, text@) =~= span_lines(old_spans, text@).push(cur));
            assert(span_lines(spans@, text@) =~= span_lines(old_spans, text@) + seq![cur]);
        }
    } else {
        proof {
            let cur = text@.subrange(start as int, n as int);
            assert(cur.len() == 0);
            assert(split_lines_acc(Seq::<char>::empty(), cur) == Seq::<Seq<char>>::empty());
            assert(span_lines(spans@, text@) + Seq::<Seq<char>>::empty() =~= span_lines(
                spans@,
                text@,
            ));
        }
    }
    spans
}

/// How one line is classified, in order: skipped (blank or comment), a
/// section header carrying its name, a key-value pair, or a hard error.
pub enum LineClass {
    Skip,
    Header(String),
    Pair(String, String),
    Bad,
}

/// First position at or after `from` whose character is not line whitespace.
fn skip_line_ws(line: &str, from: usize) -> (r: usize)
    requires
        from <= line@.len(),
    ensures
        from <= r <= line@.len(),
        forall|k: int| from <= k < r ==> is_line_ws(line@[k]),
        r < line@.len() ==> !is_line_ws(line@[r as int]),
{
    let n = line.unicode_len();
    let mut j = from;
    while j < n
        invariant
            from <= j <= n,
            n == line@.len(),
            forall|k: int| from <= k < j ==> is_line_ws(line@[k]),
        decreases n - j,
    {
        let c = line.get_char(j);
        if !(c == ' ' || c == '\t') {
            return j;
        }
        j += 1;
    }
    j
}

/// First position at or after `from` whose character is not a key character.
fn skip_key_chars(line: &str, from: usize) -> (r: usize)
    requires
        from <= line@.len(),
    ensures
        from <= r <= line@.len(),
        forall|k: int| from <= k < r ==> is_key_char(line@[k]),
        r < line@.len() ==> !is_key_char(line@[r as int]),
{
    let n = line.unicode_len();
    let mut j = from;
    while j < n
        invariant
            from <= j <= n,
            n == line@.len(),
            forall|k: int| from <= k < j ==> is_key_char(line@[k]),
        decreases n - j,
    {
        let c = line.get_char(j);
        if c == '=' || c == ' ' || c == '\t' || c == '\r' || c == '\n' {
            return j;
        }
        j += 1;
    }
    j
}

/// Whether any character in `line[from..]` is a carriage return.
fn contains_cr(line: &str, from: usize) -> (r: bool)
    requires
        from <= line@.len(),
    ensures
        r == !(forall|k: int| from <= k < line@.len() ==> line@[k] != '\r'),
{
    let n = line.unicode_len();
    let mut j = from;
    while j < n
        invariant
            from <= j <= n,
            n == line@.len(),
            forall|k: int| from <= k < j ==> line@[k] != '\r',
        decreases n - j,
    {
        if line.get_char(j) == '\r' {
            return true;
        }
        j += 1;
    }
    false
}

/// Whether every character in `line[from..to]` avoids `]` and CR.
fn header_interior_ok(line: &str, from: usize, to: usize) -> (r: bool)
    requires
        from <= to <= line@.len(),
    ensures
        r == (forall|k: int| from <= k < to ==> line@[k] != ']' && line@[k] != '\r'),
{
    let mut j = from;
    while j < to
        invariant
            from <= j <= to <= line@.len(),
            forall|k: int| from <= k < j ==> line@[k] != ']' && line@[k] != '\r',
        decreases to - j,
    {
        let c = line.get_char(j);
        if c == ']' || c == '\r' {
            return false;
        }
        j += 1;
    }
    true
}

/// Classifies one line, in the grammar's order: blank or comment lines are
/// skipped, then a section header is recognized, then a key-value pair;
/// anything else is a hard error.
pub fn classify_line(line: &str) -> (r: LineClass)
    ensures
        ({
            let l = line@;
            match r {
                LineClass::Skip => is_skip_line(l),
                LineClass::Header(name) => !is_skip_line(l) && is_header_line(l) && name@
                    == header_name(l),
                LineClass::Pair(key, value) => !is_skip_line(l) && !is_header_line(l)
                    && is_kv_line(l) && key@ == kv_key(l) && value@ == kv_value(l),
                LineClass::Bad => !is_skip_line(l) && !is_header_line(l) && !is_kv_line(l),
            }
        }),
{
    let n = line.unicode_len();
    let j = skip_line_ws(line, 0);
    proof {
        lemma_lead_ws_is(line@, j as int);
    }
    if j == n {
        return LineClass::Skip;
    }
    let c = line.get_char(j);
    if c == ';' || c == '#' {
        return LineClass::Skip;
    }
    if c == '[' {
        if n - j >= 3 && line.get_char(n - 1) == ']' {
            if header_interior_ok(line, j + 1, n - 1) {
                let name = String::from_str(line.substring_char(j + 1, n - 1));
                return LineClass::Header(name);
            }
        }
    }
    // Not a header from here on: one of the header conditions failed, or the
    // first significant character is not `[`.
    let k = skip_key_chars(line, j);
    proof {
        assert forall|x: int| 0 <= x < k - j implies is_key_char(line@.skip(j as int)[x]) by {
            assert(line@.skip(j as int)[x] == line@[j + x]);
        }
        assert(k < n ==> !is_key_char(line@.skip(j as int)[k - j]));
        lemma_key_run_is(line@.skip(j as int), k as int - j as int);
        assert(key_end(line@) == k as int);
    }
    if k == j {
        return LineClass::Bad;
    }
    let m = skip_line_ws(line, k);
    proof {
        assert forall|x: int| 0 <= x < m - k implies is_line_ws(line@.skip(k as int)[x]) by {
            assert(line@.skip(k as int)[x] == line@[k + x]);
        }
        assert(m < n ==> !is_line_ws(line@.skip(k as int)[m - k]));
        lemma_lead_ws_is(line@.skip(k as int), m as int - k as int);
        assert(eq_pos(line@) == m as int);
    }
    if m == n {
        return LineClass::Bad;
    }
    if line.get_char(m) != '=' {
        return LineClass::Bad;
    }
    let v = skip_line_ws(line, m + 1);
    proof {
        let mp = m as int + 1;
        assert forall|x: int| 0 <= x < v - mp implies is_line_ws(line@.skip(mp)[x]) by {
            assert(line@.skip(mp)[x] == line@[mp + x]);
        }
        assert(v < n ==> !is_line_ws(line@.skip(mp)[v - mp]));
        lemma_lead_ws_is(line@.skip(mp), v as int - mp);
        assert(val_start(line@) == v as int);
    }
    if contains_cr(line, v) {
        return LineClass::Bad;
    }
    let key = String::from_str(line.substring_char(j, k));
    let value = String::from_str(line.substring_char(v, n));
    LineClass::Pair(key, value)
}

/// Parses the catalog text into its sections in file order, each section's
/// entries in file order and verbatim, or reports the first offending line.
pub fn parse(text: &str) -> (r: Result<Vec<ParsedSection>, ParseError>)
    ensures
        ({
            let s = parse_spec(text@);
            match r {
                Ok(secs) => s == Ok::<Seq<SectionModel>, int>(secs_view(secs@)),
                Err(e) => s == Err::<Seq<SectionModel>, int>(e.line as int),
            }
        }),
{
    let spans = find_line_spans(text);
    let ghost lines = split_lines(text@);
    let mut secs: Vec<ParsedSection> = Vec::new();
    let mut i: usize = 0;
    proof {
        assert(secs_view(secs@) =~= Seq::<SectionModel>::empty());
    }
    while i < spans.len()
        invariant
            spans@.len() == lines.len(),
            lines == split_lines(text@),
            span_lines(spans@, text@) == lines,
            forall|k: int| 0 <= k < spans@.len() ==> #[trigger] spans@[k].0 <= spans@[k].1
                <= text@.len(),
            i <= spans@.len(),
            parse_spec(text@) == parse_from(lines, i as int, secs_view(secs@)),
        decreases spans@.len() - i,
    {
        let p = spans[i];
        let line = text.substring_char(p.0, p.1);
        proof {
            assert(line@ == span_lines(spans@, text@)[i as int]);
        }
        let cls = classify_line(line);
        match cls {
            LineClass::Skip => {
                proof {
                    assert(parse_from(lines, i as int, secs_view(secs@)) == parse_from(
                        lines,
                        i as int + 1,
                        secs_view(secs@),
                    ));
                }
            },
            LineClass::Header(name) => {
                let ghost old_view = secs_view(secs@);
                secs.push(ParsedSection { name, entries: Vec::new() });
                proof {
                    assert(entries_view(Seq::<(String, String)>::empty()) =~= Seq::<
                        (Seq<char>, Seq<char>),
                    >::empty());
                    assert(secs_view(secs@) =~= old_view.push(
                        SectionModel { name: header_name(lines[i as int]), entries: Seq::empty() },
                    ));
                }
            },
            LineClass::Pair(key, value) => {
                if secs.len() == 0 {
                    proof {
                        assert(secs_view(secs@).len() == 0);
                    }
                    return Err(ParseError { line: i });
                }
                let ghost old_view = secs_view(secs@);
                let mut last = secs.pop().unwrap();
                let ghost old_entries = entries_view(last.entries@);
                last.entries.push((key, value));
                proof {
                    assert(entries_view(last.entries@) =~= old_entries.push(
                        (kv_key(lines[i as int]), kv_value(lines[i as int])),
                    ));
                }
                secs.push(last);
                proof {
                    assert(secs_view(secs@) =~= old_view.update(
                        old_view.len() - 1,
                        SectionModel {
                            name: old_view.last().name,
                            entries: old_view.last().entries.push(
                                (kv_key(lines[i as int]), kv_value(lines[i as int])),
                            ),
                        },
                    ));
                }
            },
            LineClass::Bad => {
                return Err(ParseError { line: i });
            },
        }
        i += 1;
    }
    Ok(secs)
}

/// The section names of a model list, in order.
pub open spec fn sec_names(ss: Seq<SectionModel>) -> Seq<Seq<char>> {
    ss.map_values(|s: SectionModel| s.name)
}

/// The names of the header lines among `lines`, in file order.
pub open spec fn header_names(lines: Seq<Seq<char>>) -> Seq<Seq<char>>
    decreases lines.len(),
{
    if lines.len() == 0 {
        Seq::empty()
    } else {
        let rest = header_names(lines.drop_first());
        if !is_skip_line(lines[0]) && is_header_line(lines[0]) {
            seq![header_name(lines[0])] + rest
        } else {
            rest
        }
    }
}

proof fn lemma_parse_from_names(lines: Seq<Seq<char>>, i: int, acc: Seq<SectionModel>)
    requires
        0 <= i <= lines.len(),
        parse_from(lines, i, acc) is Ok,
    ensures
        sec_names(parse_from(lines, i, acc)->Ok_0) == sec_names(acc) + header_names(
            lines.skip(i),
        ),
    decreases lines.len() - i,
{
    if i == lines.len() {
        assert(lines.skip(i) =~= Seq::<Seq<char>>::empty());
        assert(sec_names(acc) + header_names(lines.skip(i)) =~= sec_names(acc));
    } else {
        let l = lines[i];
        let rest = lines.skip(i);
        assert(rest[0] == l);
        assert(rest.drop_first() =~= lines.skip(i + 1));
        if is_skip_line(l) {
            lemma_parse_from_names(lines, i + 1, acc);
        } else if is_header_line(l) {
            let acc2 = acc.push(SectionModel { name: header_name(l), entries: Seq::empty() });
            lemma_parse_from_names(lines, i + 1, acc2);
            assert(sec_names(acc2) =~= sec_names(acc).push(header_name(l)));
            assert(sec_names(acc).push(header_name(l)) + header_names(lines.skip(i + 1)) =~=
                sec_names(acc) + (seq![header_name(l)] + header_names(lines.skip(i + 1))));
        } else {
            assert(is_kv_line(l));
            assert(acc.len() > 0);
            let acc2 = acc.update(
                acc.len() - 1,
                SectionModel {
                    name: acc.last().name,
                    entries: acc.last().entries.push((kv_key(l), kv_value(l))),
                },
            );
            lemma_parse_from_names(lines, i + 1, acc2);
            assert(sec_names(acc2) =~= sec_names(acc));
        }
    }
}

/// The entries of all sections, concatenated in section order.
pub open spec fn all_entries(ss: Seq<SectionModel>) -> Seq<(Seq<char>, Seq<char>)>
    decreases ss.len(),
{
    if ss.len() == 0 {
        Seq::empty()
    } else {
        all_entries(ss.drop_last()) + ss.last().entries
    }
}

/// The key-value pairs of the key-value lines among `lines`, in file order.
pub open spec fn kv_pairs(lines: Seq<Seq<char>>) -> Seq<(Seq<char>, Seq<char>)>
    decreases lines.len(),
{
    if lines.len() == 0 {
        Seq::empty()
    } else {
        let rest = kv_pairs(lines.drop_first());
        let l = lines[0];
        if !is_skip_line(l) && !is_header_line(l) && is_kv_line(l) {
            seq![(kv_key(l), kv_value(l))] + rest
        } else {
            rest
        }
    }
}

proof fn lemma_parse_from_entries(lines: Seq<Seq<char>>, i: int, acc: Seq<SectionModel>)
    requires
        0 <= i <= lines.len(),
        parse_from(lines, i, acc) is Ok,
    ensures
        all_entries(parse_from(lines, i, acc)->Ok_0) == all_entries(acc) + kv_pairs(
            lines.skip(i),
        ),
    decreases lines.len() - i,
{
    if i == lines.len() {
        assert(lines.skip(i) =~= Seq::<Seq<char>>::empty());
        assert(all_entries(acc) + kv_pairs(lines.skip(i)) =~= all_entries(acc));
    } else {
        let l = lines[i];
        let rest = lines.skip(i);
        assert(rest[0] == l);
        assert(rest.drop_first() =~= lines.skip(i + 1));
        if is_skip_line(l) {
            lemma_parse_from_entries(lines, i + 1, acc);
        } else if is_header_line(l) {
            let acc2 = acc.push(SectionModel { name: header_name(l), entries: Seq::empty() });
            lemma_parse_from_entries(lines, i + 1, acc2);
            assert(acc2.drop_last() =~= acc);
            assert(all_entries(acc2) =~= all_entries(acc));
        } else {
            assert(is_kv_line(l));
            assert(acc.len() > 0);
            let pair = (kv_key(l), kv_value(l));
            let acc2 = acc.update(
                acc.len() - 1,
                SectionModel {
                    name: acc.last().name,
                    entries: acc.last().entries.push(pair),
                },
            );
            lemma_parse_from_entries(lines, i + 1, acc2);
            assert(acc2.drop_last() =~= acc.drop_last());
            assert(acc2.last().entries =~= acc.last().entries + seq![pair]);
            assert(all_entries(acc2) =~= all_entries(acc) + seq![pair]);
            assert(all_entries(acc) + seq![pair] + kv_pairs(lines.skip(i + 1)) =~= all_entries(
                acc,
            ) + (seq![pair] + kv_pairs(lines.skip(i + 1))));
        }
    }
}

/// Parse order invariant: a successful parse returns one section per header
/// line of the input, under the same names, in file order; and the entries
/// of the sections, read in section order, are exactly the input's
/// key-value lines in file order (`parse_from` appends every key-value line
/// to the section most recently opened, so each section's entries are its
/// own lines, in order).
pub proof fn lemma_parse_order(t: Seq<char>)
    requires
        parse_spec(t) is Ok,
    ensures
        sec_names(parse_spec(t)->Ok_0) == header_names(split_lines(t)),
        all_entries(parse_spec(t)->Ok_0) == kv_pairs(split_lines(t)),
{
    lemma_parse_from_names(split_lines(t), 0, Seq::empty());
    lemma_parse_from_entries(split_lines(t), 0, Seq::empty());
    assert(split_lines(t).skip(0) =~= split_lines(t));
    assert(sec_names(Seq::<SectionModel>::empty()) + header_names(split_lines(t)) =~=
        header_names(split_lines(t)));
    assert(all_entries(Seq::<SectionModel>::empty()) + kv_pairs(split_lines(t)) =~= kv_pairs(
        split_lines(t),
    ));
}

/// Idempotence: the parse is a function of the text alone, so parsing
/// structurally identical text yields structurally identical output.
pub proof fn lemma_parse_idempotent(t1: Seq<char>, t2: Seq<char>)
    requires
        t1 == t2,
    ensures
        parse_spec(t1) == parse_spec(t2),
{
}

} // verus!
