//! Reading the tables that `netsh` prints.
//!
//! The commands themselves are run elsewhere; the functions here take the
//! text a command printed and find in it what the gateway needs: the default
//! route, its gateway and interface, an interface's index.

use crate::text::chars_of;
use vstd::prelude::*;
use vstd::string::StrSliceExecFns;

verus! {

/// The characters with Unicode's `White_Space` property.
pub open spec fn is_space(c: char) -> bool {
    ||| '\u{9}' <= c <= '\u{d}'
    ||| c == ' '
    ||| c == '\u{85}'
    ||| c == '\u{a0}'
    ||| c == '\u{1680}'
    ||| '\u{2000}' <= c <= '\u{200a}'
    ||| c == '\u{2028}'
    ||| c == '\u{2029}'
    ||| c == '\u{202f}'
    ||| c == '\u{205f}'
    ||| c == '\u{3000}'
}

/// Whether `c` is white space.
pub fn is_space_char(c: char) -> (r: bool)
    ensures
        r == is_space(c),
{
    let n: u32 = c as u32;
    (0x9 <= n && n <= 0xd) || n == 0x20 || n == 0x85 || n == 0xa0 || n == 0x1680 || (0x2000 <= n
        && n <= 0x200a) || n == 0x2028 || n == 0x2029 || n == 0x202f || n == 0x205f || n == 0x3000
}

/// The number of characters of `s` before its first white space.
pub open spec fn word_len(s: Seq<char>) -> nat
    decreases s.len(),
{
    if s.len() == 0 || is_space(s[0]) {
        0
    } else {
        1 + word_len(s.drop_first())
    }
}

/// The fields of a line: its maximal runs of characters that are not white
/// space, from left to right.
pub open spec fn fields(s: Seq<char>) -> Seq<Seq<char>>
    decreases s.len(),
{
    if s.len() == 0 {
        Seq::empty()
    } else if is_space(s[0]) {
        fields(s.drop_first())
    } else {
        proof {
            lemma_word_len_bound(s);
        }
        seq![s.take(word_len(s) as int)] + fields(s.skip(word_len(s) as int))
    }
}

/// The characters of each string of a row.
pub open spec fn row_view(row: Seq<String>) -> Seq<Seq<char>> {
    Seq::new(row.len(), |j: int| row[j]@)
}

/// The rows of a table, each as `row_view` gives it.
pub open spec fn table_view(t: Seq<Vec<String>>) -> Seq<Seq<Seq<char>>> {
    Seq::new(t.len(), |i: int| row_view(t[i]@))
}

/// The first word of `s` lies within `s`, holds no white space, and is
/// followed by white space or by the end of `s`.
pub proof fn lemma_word_len_bound(s: Seq<char>)
    ensures
        word_len(s) <= s.len(),
        word_len(s) < s.len() ==> is_space(s[word_len(s) as int]),
        forall|i: int| 0 <= i < word_len(s) ==> !is_space(#[trigger] s[i]),
    decreases s.len(),
{
    if s.len() == 0 || is_space(s[0]) {
    } else {
        let t = s.drop_first();
        lemma_word_len_bound(t);
        assert forall|i: int| 0 <= i < word_len(s) implies !is_space(#[trigger] s[i]) by {
            if i > 0 {
                assert(s[i] == t[i - 1]);
            }
        }
        if word_len(s) < s.len() {
            assert(s[word_len(s) as int] == t[word_len(t) as int]);
        }
    }
}

/// A run of `m` characters that are not white space, ended by white space or
/// by the end of `s`, is the first word of `s`.
proof fn lemma_word_len_is(s: Seq<char>, m: nat)
    requires
        m <= s.len(),
        forall|i: int| 0 <= i < m ==> !is_space(#[trigger] s[i]),
        m < s.len() ==> is_space(s[m as int]),
    ensures
        word_len(s) == m,
    decreases m,
{
    if m > 0 {
        let t = s.drop_first();
        assert forall|i: int| 0 <= i < m - 1 implies !is_space(#[trigger] t[i]) by {
            assert(t[i] == s[i + 1]);
        }
        if m < s.len() {
            assert(t[m - 1] == s[m as int]);
        }
        lemma_word_len_is(t, (m - 1) as nat);
    }
}

/// The fields of the characters of `text` from position `from` up to `to`.
fn split_fields(text: &str, chars: &Vec<char>, from: usize, to: usize) -> (r: Vec<String>)
    requires
        chars@ == text@,
        from <= to <= chars.len(),
    ensures
        row_view(r@) == fields(text@.subrange(from as int, to as int)),
{
    let ghost line = text@.subrange(from as int, to as int);
    let mut out: Vec<String> = Vec::new();
    let mut i: usize = from;
    assert(line.skip(0) =~= line);
    assert(row_view(out@) =~= Seq::<Seq<char>>::empty());
    while i < to
        invariant
            chars@ == text@,
            from <= i <= to <= chars.len(),
            line == text@.subrange(from as int, to as int),
            fields(line) =~= row_view(out@) + fields(line.skip(i - from)),
        decreases to - i,
    {
        let ghost rest = line.skip(i - from);
        assert(rest[0] == chars@[i as int]);
        if is_space_char(chars[i]) {
            assert(rest.drop_first() =~= line.skip(i + 1 - from));
            i += 1;
        } else {
            let mut j: usize = i + 1;
            while j < to && !is_space_char(chars[j])
                invariant
                    chars@ == text@,
                    from <= i < j <= to <= chars.len(),
                    line == text@.subrange(from as int, to as int),
                    rest == line.skip(i - from),
                    forall|x: int| 0 <= x < j - i ==> !is_space(#[trigger] rest[x]),
                decreases to - j,
            {
                assert(rest[j - i] == chars@[j as int]);
                j += 1;
            }
            proof {
                if j < to {
                    assert(rest[j - i] == chars@[j as int]);
                }
                lemma_word_len_is(rest, (j - i) as nat);
            }
            let word = text.substring_char(i, j).to_owned();
            let ghost before = row_view(out@);
            out.push(word);
            proof {
                assert(rest.take(j - i) =~= text@.subrange(i as int, j as int));
                assert(rest.skip(j - i) =~= line.skip(j - from));
                assert(row_view(out@) =~= before + seq![rest.take(j - i)]);
                assert(fields(line) =~= row_view(out@) + fields(line.skip(j - from)));
            }
            i = j;
        }
    }
    assert(line.skip(to - from) =~= Seq::<char>::empty());
    assert(fields(line) =~= row_view(out@));
    out
}

/// The number of characters of `s` before its first line feed.
pub open spec fn line_len(s: Seq<char>) -> nat
    decreases s.len(),
{
    if s.len() == 0 || s[0] == '\n' {
        0
    } else {
        1 + line_len(s.drop_first())
    }
}

/// The first line of `s` lies within `s`, holds no line feed, and is
/// followed by a line feed or by the end of `s`.
pub proof fn lemma_line_len_bound(s: Seq<char>)
    ensures
        line_len(s) <= s.len(),
        line_len(s) < s.len() ==> s[line_len(s) as int] == '\n',
        forall|i: int| 0 <= i < line_len(s) ==> #[trigger] s[i] != '\n',
    decreases s.len(),
{
    if s.len() == 0 || s[0] == '\n' {
    } else {
        let t = s.drop_first();
        lemma_line_len_bound(t);
        assert forall|i: int| 0 <= i < line_len(s) implies #[trigger] s[i] != '\n' by {
            if i > 0 {
                assert(s[i] == t[i - 1]);
            }
        }
        if line_len(s) < s.len() {
            assert(s[line_len(s) as int] == t[line_len(t) as int]);
        }
    }
}

proof fn lemma_line_len_is(s: Seq<char>, m: nat)
    requires
        m <= s.len(),
        forall|i: int| 0 <= i < m ==> #[trigger] s[i] != '\n',
        m < s.len() ==> s[m as int] == '\n',
    ensures
        line_len(s) == m,
    decreases m,
{
    if m > 0 {
        let t = s.drop_first();
        assert forall|i: int| 0 <= i < m - 1 implies #[trigger] t[i] != '\n' by {
            assert(t[i] == s[i + 1]);
        }
        if m < s.len() {
            assert(t[m - 1] == s[m as int]);
        }
        lemma_line_len_is(t, (m - 1) as nat);
    }
}

/// What follows the first line of `s` and the line feed that ends it.
pub open spec fn after_line(s: Seq<char>) -> Seq<char> {
    if line_len(s) < s.len() {
        s.skip(line_len(s) as int + 1)
    } else {
        Seq::empty()
    }
}

/// What follows the first `k` lines of `s`.
pub open spec fn skip_lines(s: Seq<char>, k: nat) -> Seq<char>
    decreases k,
{
    if k == 0 {
        s
    } else {
        skip_lines(after_line(s), (k - 1) as nat)
    }
}

/// The lines of `s`, each split into its fields. A line without fields is
/// left out unless `keep_blank` is set.
pub open spec fn rows_of(s: Seq<char>, keep_blank: bool) -> Seq<Seq<Seq<char>>>
    decreases s.len(),
{
    if s.len() == 0 {
        Seq::empty()
    } else {
        proof {
            lemma_line_len_bound(s);
        }
        let row = fields(s.take(line_len(s) as int));
        let rest = rows_of(after_line(s), keep_blank);
        if row.len() == 0 && !keep_blank {
            rest
        } else {
            seq![row] + rest
        }
    }
}

/// The table that a `netsh show` command printed as `text`: the lines below
/// the three lines of heading, split into columns, blank lines left out.
pub open spec fn table(text: Seq<char>) -> Seq<Seq<Seq<char>>> {
    rows_of(skip_lines(text, 3), false)
}

/// Where the line that begins at `from` ends: at the next line feed, or at
/// the end of the text.
fn line_end(chars: &Vec<char>, from: usize) -> (e: usize)
    requires
        from <= chars.len(),
    ensures
        from <= e <= chars.len(),
        e - from == line_len(chars@.skip(from as int)),
{
    let ghost rest = chars@.skip(from as int);
    let mut e: usize = from;
    while e < chars.len() && chars[e] != '\n'
        invariant
            from <= e <= chars.len(),
            rest == chars@.skip(from as int),
            forall|x: int| 0 <= x < e - from ==> #[trigger] rest[x] != '\n',
        decreases chars.len() - e,
    {
        assert(rest[e - from] == chars@[e as int]);
        e += 1;
    }
    proof {
        if e < chars.len() {
            assert(rest[e - from] == chars@[e as int]);
        }
        lemma_line_len_is(rest, (e - from) as nat);
    }
    e
}

/// Where the line after the one that ends at `e` begins.
fn line_start_after(chars: &Vec<char>, from: usize, e: usize) -> (next: usize)
    requires
        from <= e <= chars.len(),
        e - from == line_len(chars@.skip(from as int)),
    ensures
        e <= next <= chars.len(),
        from < chars.len() ==> from < next,
        chars@.skip(next as int) == after_line(chars@.skip(from as int)),
{
    let ghost rest = chars@.skip(from as int);
    if e < chars.len() {
        assert(rest.skip(e - from + 1) =~= chars@.skip(e + 1));
        e + 1
    } else {
        assert(chars@.skip(e as int) =~= Seq::<char>::empty());
        e
    }
}

/// Where the text below the three lines of heading begins.
fn body_start(chars: &Vec<char>) -> (pos: usize)
    ensures
        pos <= chars.len(),
        chars@.skip(pos as int) == skip_lines(chars@, 3),
{
    let mut pos: usize = 0;
    let mut skipped: usize = 0;
    assert(chars@.skip(0) =~= chars@);
    while skipped < 3
        invariant
            skipped <= 3,
            pos <= chars.len(),
            skip_lines(chars@, 3) == skip_lines(chars@.skip(pos as int), (3 - skipped) as nat),
        decreases 3 - skipped,
    {
        let e = line_end(chars, pos);
        pos = line_start_after(chars, pos, e);
        skipped += 1;
    }
    pos
}

/// Splits what `text` holds below its first three lines into rows of fields.
fn read_rows(text: &str, keep_blank: bool) -> (r: Vec<Vec<String>>)
    ensures
        table_view(r@) == rows_of(skip_lines(text@, 3), keep_blank),
{
    let chars = chars_of(text);
    let n = chars.len();
    let mut pos: usize = body_start(&chars);
    let ghost body = chars@.skip(pos as int);
    let mut out: Vec<Vec<String>> = Vec::new();
    assert(table_view(out@) =~= Seq::<Seq<Seq<char>>>::empty());
    while pos < n
        invariant
            pos <= n,
            n == chars.len(),
            chars@ == text@,
            rows_of(body, keep_blank) =~= table_view(out@) + rows_of(
                chars@.skip(pos as int),
                keep_blank,
            ),
        decreases n - pos,
    {
        let ghost rest = chars@.skip(pos as int);
        let ghost before = table_view(out@);
        let e = line_end(&chars, pos);
        let row = split_fields(text, &chars, pos, e);
        let next = line_start_after(&chars, pos, e);
        assert(rest.take(e - pos) =~= text@.subrange(pos as int, e as int));
        if keep_blank || row.len() > 0 {
            let ghost shown = row_view(row@);
            out.push(row);
            assert(table_view(out@) =~= before + seq![shown]);
        }
        pos = next;
    }
    out
}

/// The rows of the table that `netsh interface ipv4 show route` printed.
pub fn get_ipv4_route_entries(output: &str) -> (r: Vec<Vec<String>>)
    ensures
        table_view(r@) == table(output@),
{
    read_rows(output, false)
}

/// The rows of the table that `netsh interface ip show interface` printed.
pub fn get_interface_entries(output: &str) -> (r: Vec<Vec<String>>)
    ensures
        table_view(r@) == table(output@),
{
    read_rows(output, false)
}

/// Why a table does not give what was asked of it.
#[derive(Debug, Clone, Copy, PartialEq, Eq, Structural)]
pub enum CmdError {
    /// A row has fewer columns than the lookup reads.
    MalformedRow,
    /// No row describes the default IPv4 route.
    NoDefaultRoute,
    /// No row describes the interface asked for.
    NoInterfaceEntry,
    /// No row describes the interface of the default route.
    NoDefaultInterface,
    /// The text has no line below its heading.
    NoDefaultIpv6Route,
    /// The default gateway is not an address.
    InvalidGateway,
}

/// A row as a table holds it.
pub type Row = Seq<Seq<char>>;

/// Some row of `t` has no column `col`.
pub open spec fn has_short_row(t: Seq<Row>, col: int) -> bool {
    exists|i: int| 0 <= i < t.len() && (#[trigger] t[i]).len() <= col
}

/// The position of the last row of `t` whose column `col` holds `value`.
pub open spec fn last_with(t: Seq<Row>, col: int, value: Seq<char>) -> Option<int>
    decreases t.len(),
{
    if t.len() == 0 {
        None
    } else if t.last().len() > col && t.last()[col] == value {
        Some(t.len() - 1)
    } else {
        last_with(t.drop_last(), col, value)
    }
}

/// The last row of `t` whose column `col` holds `value`: `MalformedRow`
/// where some row has no such column, `missing` where no row holds the value.
pub open spec fn select_last(t: Seq<Row>, col: int, value: Seq<char>, missing: CmdError) -> Result<
    Row,
    CmdError,
> {
    if has_short_row(t, col) {
        Err(CmdError::MalformedRow)
    } else {
        match last_with(t, col, value) {
            Some(i) => Ok(t[i]),
            None => Err(missing),
        }
    }
}

/// Column `col` of a row, `MalformedRow` where the row has none.
pub open spec fn column(row: Result<Row, CmdError>, col: int) -> Result<Seq<char>, CmdError> {
    match row {
        Ok(row) => if col < row.len() {
            Ok(row[col])
        } else {
            Err(CmdError::MalformedRow)
        },
        Err(e) => Err(e),
    }
}

/// The row of the default IPv4 route in a route table: the last one whose
/// fourth column is `0.0.0.0/0`.
pub open spec fn default_ipv4_route(t: Seq<Row>) -> Result<Row, CmdError> {
    select_last(t, 3, "0.0.0.0/0"@, CmdError::NoDefaultRoute)
}

/// The row of the interface named `interface` in an interface table: the
/// last one whose fifth column is the name.
pub open spec fn interface_entry(t: Seq<Row>, interface: Seq<char>) -> Result<Row, CmdError> {
    select_last(t, 4, interface, CmdError::NoInterfaceEntry)
}

/// What a lookup that gives a row returned, as the table holds it.
pub open spec fn row_result(r: Result<Vec<String>, CmdError>) -> Result<Row, CmdError> {
    match r {
        Ok(row) => Ok(row_view(row@)),
        Err(e) => Err(e),
    }
}

/// What a lookup that gives a string returned, as the table holds it.
pub open spec fn text_result(r: Result<String, CmdError>) -> Result<Seq<char>, CmdError> {
    match r {
        Ok(s) => Ok(s@),
        Err(e) => Err(e),
    }
}

/// A copy of a row.
fn copy_row(row: &Vec<String>) -> (r: Vec<String>)
    ensures
        row_view(r@) == row_view(row@),
{
    let mut out: Vec<String> = Vec::new();
    let mut i: usize = 0;
    while i < row.len()
        invariant
            i <= row.len(),
            out@.len() == i,
            forall|j: int| 0 <= j < i ==> out@[j]@ == row@[j]@,
        decreases row.len() - i,
    {
        out.push(row[i].clone());
        i += 1;
    }
    assert(row_view(out@) =~= row_view(row@));
    out
}

/// Finds the last row whose column `col` holds `value`.
fn select_last_row(entries: &Vec<Vec<String>>, col: usize, value: &str, missing: CmdError) -> (r:
    Result<Vec<String>, CmdError>)
    ensures
        row_result(r) == select_last(table_view(entries@), col as int, value@, missing),
{
    let ghost t = table_view(entries@);
    let mut found: Option<usize> = None;
    let mut i: usize = 0;
    assert(t.take(0) =~= Seq::<Row>::empty());
    while i < entries.len()
        invariant
            i <= entries.len(),
            t == table_view(entries@),
            !has_short_row(t.take(i as int), col as int),
            match found {
                Some(at) => at < i && last_with(t.take(i as int), col as int, value@) == Some(
                    at as int,
                ),
                None => last_with(t.take(i as int), col as int, value@) is None,
            },
        decreases entries.len() - i,
    {
        let row = &entries[i];
        let ghost seen = t.take(i as int);
        let ghost more = t.take(i + 1);
        assert(more.drop_last() =~= seen);
        assert(more.last() == t[i as int]);
        assert(t[i as int].len() == row@.len());
        if row.len() <= col {
            assert(has_short_row(t, col as int));
            return Err(CmdError::MalformedRow);
        }
        assert(t[i as int][col as int] == row@[col as int]@);
        if row[col].as_str().eq(value) {
            found = Some(i);
        }
        assert forall|x: int| 0 <= x < more.len() implies (#[trigger] more[x]).len() > col by {
            if x < i {
                assert(seen[x] == more[x]);
            }
        }
        i += 1;
    }
    assert(t.take(i as int) =~= t);
    match found {
        Some(at) => Ok(copy_row(&entries[at])),
        None => Err(missing),
    }
}

/// Column `col` of what a row lookup returned.
fn column_of(row: Result<Vec<String>, CmdError>, col: usize) -> (r: Result<String, CmdError>)
    ensures
        text_result(r) == column(row_result(row), col as int),
{
    match row {
        Ok(row) => if col < row.len() {
            Ok(row[col].clone())
        } else {
            Err(CmdError::MalformedRow)
        },
        Err(e) => Err(e),
    }
}

/// The row of the default IPv4 route, from what
/// `netsh interface ipv4 show route` printed.
pub fn get_default_ipv4_route_entry(output: &str) -> (r: Result<Vec<String>, CmdError>)
    ensures
        row_result(r) == default_ipv4_route(table(output@)),
{
    let entries = get_ipv4_route_entries(output);
    select_last_row(&entries, 3, "0.0.0.0/0", CmdError::NoDefaultRoute)
}

/// The gateway of the default IPv4 route: the sixth column of its row.
pub fn get_default_ipv4_gateway(output: &str) -> (r: Result<String, CmdError>)
    ensures
        text_result(r) == column(default_ipv4_route(table(output@)), 5),
{
    column_of(get_default_ipv4_route_entry(output), 5)
}

/// The index of the interface of the default IPv4 route: the fifth column
/// of its row.
pub fn get_default_ipv4_interface_index(output: &str) -> (r: Result<String, CmdError>)
    ensures
        text_result(r) == column(default_ipv4_route(table(output@)), 4),
{
    column_of(get_default_ipv4_route_entry(output), 4)
}

/// The row of the interface named `interface`, from what
/// `netsh interface ip show interface` printed.
pub fn get_interface_entry(output: &str, interface: &str) -> (r: Result<Vec<String>, CmdError>)
    ensures
        row_result(r) == interface_entry(table(output@), interface@),
{
    let entries = get_interface_entries(output);
    select_last_row(&entries, 4, interface, CmdError::NoInterfaceEntry)
}

/// The index of the interface named `interface`: the first column of its row.
pub fn get_interface_index(output: &str, interface: &str) -> (r: Result<String, CmdError>)
    ensures
        text_result(r) == column(interface_entry(table(output@), interface@), 0),
{
    column_of(get_interface_entry(output, interface), 0)
}

/// Every row of a table from which blank lines are left out has a first column.
pub proof fn lemma_rows_have_fields(s: Seq<char>)
    ensures
        forall|i: int| 0 <= i < rows_of(s, false).len() ==> (#[trigger] rows_of(s, false)[i]).len() > 0,
    decreases s.len(),
{
    if s.len() > 0 {
        lemma_line_len_bound(s);
        lemma_rows_have_fields(after_line(s));
        let row = fields(s.take(line_len(s) as int));
        let rest = rows_of(after_line(s), false);
        let all = rows_of(s, false);
        assert forall|i: int| 0 <= i < all.len() implies (#[trigger] all[i]).len() > 0 by {
            if row.len() > 0 && i > 0 {
                assert(all[i] == rest[i - 1]);
            }
        }
    }
}

/// The first column of every row of `t`.
pub open spec fn first_columns(t: Seq<Row>) -> Seq<Seq<char>> {
    Seq::new(t.len(), |i: int| t[i][0])
}

/// The indices of all interfaces, from what
/// `netsh interface ip show interface` printed: the first column of each row.
pub fn get_interface_indices(output: &str) -> (r: Vec<String>)
    ensures
        row_view(r@) == first_columns(table(output@)),
{
    let entries = get_interface_entries(output);
    let ghost t = table(output@);
    proof {
        lemma_rows_have_fields(skip_lines(output@, 3));
    }
    let mut out: Vec<String> = Vec::new();
    let mut i: usize = 0;
    while i < entries.len()
        invariant
            i <= entries.len(),
            t == table_view(entries@),
            forall|x: int| 0 <= x < t.len() ==> (#[trigger] t[x]).len() > 0,
            out@.len() == i,
            forall|x: int| 0 <= x < i ==> out@[x]@ == t[x][0],
        decreases entries.len() - i,
    {
        assert(t[i as int].len() == entries@[i as int]@.len());
        assert(t[i as int][0] == entries@[i as int]@[0]@);
        out.push(entries[i][0].clone());
        i += 1;
    }
    assert(row_view(out@) =~= first_columns(t));
    out
}

/// The first line of `s` as `str::lines` gives it: up to the first line
/// feed, without it, and without a carriage return that stands before it.
pub open spec fn first_line(s: Seq<char>) -> Seq<char> {
    let n = line_len(s) as int;
    if 0 < n < s.len() && s[n - 1] == '\r' {
        s.take(n - 1)
    } else {
        s.take(n)
    }
}

/// The first line below the heading of what
/// `netsh interface ipv6 show route` printed.
pub fn get_default_ipv6_route_entry(output: &str) -> (r: Result<String, CmdError>)
    ensures
        text_result(r) == if skip_lines(output@, 3).len() == 0 {
            Err(CmdError::NoDefaultIpv6Route)
        } else {
            Ok(first_line(skip_lines(output@, 3)))
        },
{
    let chars = chars_of(output);
    let pos = body_start(&chars);
    if pos >= chars.len() {
        return Err(CmdError::NoDefaultIpv6Route);
    }
    let ghost body = chars@.skip(pos as int);
    let e = line_end(&chars, pos);
    let end = if pos < e && e < chars.len() && chars[e - 1] == '\r' {
        e - 1
    } else {
        e
    };
    proof {
        if pos < e {
            assert(body[e - pos - 1] == chars@[e - 1]);
        }
        assert(body.take(end - pos) =~= output@.subrange(pos as int, end as int));
    }
    Ok(output.substring_char(pos, end).to_owned())
}

/// The first row of `t` whose column `col` holds `value`. `MalformedRow`
/// where that row or one before it has no such column, `missing` where no
/// row holds the value.
pub open spec fn select_first(t: Seq<Row>, col: int, value: Seq<char>, missing: CmdError) -> Result<
    Row,
    CmdError,
>
    decreases t.len(),
{
    if t.len() == 0 {
        Err(missing)
    } else if t[0].len() <= col {
        Err(CmdError::MalformedRow)
    } else if t[0][col] == value {
        Ok(t[0])
    } else {
        select_first(t.drop_first(), col, value, missing)
    }
}

/// The name of the interface of the default IPv4 route.
///
/// The interface's index is read from `routes`, what
/// `netsh interface ipv4 show route` printed. The name is the fifth field
/// of the first line below the heading of `interfaces`, what
/// `netsh interface ipv4 show interface` printed, whose first field is that
/// index; blank lines count as rows without fields.
pub open spec fn default_interface(routes: Seq<char>, interfaces: Seq<char>) -> Result<
    Seq<char>,
    CmdError,
> {
    match column(default_ipv4_route(table(routes)), 4) {
        Err(e) => Err(e),
        Ok(index) => column(
            select_first(
                rows_of(skip_lines(interfaces, 3), true),
                0,
                index,
                CmdError::NoDefaultInterface,
            ),
            4,
        ),
    }
}

/// The name of the interface of the default IPv4 route, from what the two
/// `netsh` commands printed.
pub fn get_default_interface(routes: &str, interfaces: &str) -> (r: Result<String, CmdError>)
    ensures
        text_result(r) == default_interface(routes@, interfaces@),
{
    let index = match get_default_ipv4_interface_index(routes) {
        Ok(index) => index,
        Err(e) => {
            return Err(e);
        },
    };
    let entries = read_rows(interfaces, true);
    let ghost t = table_view(entries@);
    let mut i: usize = 0;
    assert(t.skip(0) =~= t);
    while i < entries.len()
        invariant
            i <= entries.len(),
            t == table_view(entries@),
            t == rows_of(skip_lines(interfaces@, 3), true),
            column(default_ipv4_route(table(routes@)), 4) == Ok::<Seq<char>, CmdError>(index@),
            select_first(t, 0, index@, CmdError::NoDefaultInterface) == select_first(
                t.skip(i as int),
                0,
                index@,
                CmdError::NoDefaultInterface,
            ),
        decreases entries.len() - i,
    {
        let row = &entries[i];
        let ghost rest = t.skip(i as int);
        assert(rest[0] == t[i as int]);
        assert(rest.drop_first() =~= t.skip(i + 1));
        assert(t[i as int].len() == row@.len());
        if row.len() == 0 {
            return Err(CmdError::MalformedRow);
        }
        assert(t[i as int][0] == row@[0]@);
        if row[0] == index {
            assert(row_view(row@) == t[i as int]);
            return column_of(Ok(copy_row(row)), 4);
        }
        i += 1;
    }
    Err(CmdError::NoDefaultInterface)
}

/// Whether IPv4 forwarding is on. The platform's setting is not read:
/// forwarding is taken to be off.
pub fn get_ipv4_forwarding() -> (r: Result<bool, CmdError>)
    ensures
        r matches Ok(on) && !on,
{
    Ok(false)
}

/// Whether IPv6 forwarding is on. The platform's setting is not read:
/// forwarding is taken to be off.
pub fn get_ipv6_forwarding() -> (r: Result<bool, CmdError>)
    ensures
        r matches Ok(on) && !on,
{
    Ok(false)
}

impl CmdError {
    /// What the error says.
    pub open spec fn text(self) -> Seq<char> {
        match self {
            CmdError::MalformedRow => "malformed row"@,
            CmdError::NoDefaultRoute => "cant get default ip route"@,
            CmdError::NoInterfaceEntry => "cnat get interface entry"@,
            CmdError::NoDefaultInterface => "cnat get default network iinterface"@,
            CmdError::NoDefaultIpv6Route => "cnat get default ipv6 route"@,
            CmdError::InvalidGateway => "invalid IP address syntax"@,
        }
    }

    /// What the error says, for a person to read.
    pub fn message(&self) -> (r: String)
        ensures
            r@ == self.text(),
    {
        match self {
            CmdError::MalformedRow => "malformed row".to_owned(),
            CmdError::NoDefaultRoute => "cant get default ip route".to_owned(),
            CmdError::NoInterfaceEntry => "cnat get interface entry".to_owned(),
            CmdError::NoDefaultInterface => "cnat get default network iinterface".to_owned(),
            CmdError::NoDefaultIpv6Route => "cnat get default ipv6 route".to_owned(),
            CmdError::InvalidGateway => "invalid IP address syntax".to_owned(),
        }
    }
}

} // verus!
