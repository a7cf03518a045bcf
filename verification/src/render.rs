//! Rendering a ranking as text, as a table of comma-separated values, or as a
//! list of JSON records.
//!
//! Rendering neither filters nor sorts.  Lines are joined by line feeds; the
//! last line is not followed by one.

use vstd::prelude::*;
use vstd::string::StringExecFns;

verus! {

/// The character that stands for the digit `d`.
pub open spec fn digit(d: nat) -> char {
    seq!['0', '1', '2', '3', '4', '5', '6', '7', '8', '9'][d as int]
}

/// The decimal numeral of `n`, without leading zeros.
pub open spec fn decimal(n: nat) -> Seq<char>
    decreases n,
{
    if n < 10 {
        seq![digit(n)]
    } else {
        decimal(n / 10).push(digit(n % 10))
    }
}

/// `n` spaces.
pub open spec fn spaces(n: nat) -> Seq<char> {
    Seq::new(n, |i: int| ' ')
}

/// `text` moved to the right of a field of `width` characters; unchanged where
/// it is longer.
pub open spec fn right_aligned(text: Seq<char>, width: nat) -> Seq<char> {
    if text.len() >= width {
        text
    } else {
        spaces((width - text.len()) as nat) + text
    }
}

/// `text` at the left of a field of `width` characters; unchanged where it is
/// longer.
pub open spec fn left_aligned(text: Seq<char>, width: nat) -> Seq<char> {
    if text.len() >= width {
        text
    } else {
        text + spaces((width - text.len()) as nat)
    }
}

/// `parts` one after the other, with `separator` between each two.
pub open spec fn joined(parts: Seq<Seq<char>>, separator: Seq<char>) -> Seq<char>
    decreases parts.len(),
{
    if parts.len() == 0 {
        Seq::empty()
    } else if parts.len() == 1 {
        parts[0]
    } else {
        joined(parts.drop_last(), separator) + separator + parts.last()
    }
}

/// The three columns of a line of plain text for the entry of rank `rank`: the
/// rank at the right of two columns, the key at the left of fifteen, the count.
pub open spec fn text_columns(rank: nat, entry: (Seq<char>, u64)) -> (
    Seq<char>,
    Seq<char>,
    Seq<char>,
) {
    (right_aligned(decimal(rank), 2), left_aligned(entry.0, 15), decimal(entry.1 as nat))
}

/// The line of plain text for the entry of rank `rank`: its columns, with a
/// full stop and a space after the rank and a space after the key.
pub open spec fn text_line(rank: nat, entry: (Seq<char>, u64)) -> Seq<char> {
    let columns = text_columns(rank, entry);
    columns.0 + seq!['.', ' '] + columns.1 + seq![' '] + columns.2
}

/// The row of the table for the entry of rank `rank`.
pub open spec fn csv_line(rank: nat, entry: (Seq<char>, u64)) -> Seq<char> {
    decimal(rank) + seq![','] + entry.0 + seq![','] + decimal(entry.1 as nat)
}

/// The JSON record of an entry whose key is already written as a JSON string.
pub open spec fn json_record(entry: (Seq<char>, u64)) -> Seq<char> {
    "{\"word\":"@ + entry.0 + ",\"frequency\":"@ + decimal(entry.1 as nat) + seq!['}']
}

/// The ranking as plain text, one line per entry.
pub open spec fn text_output(entries: Seq<(Seq<char>, u64)>) -> Seq<char> {
    joined(Seq::new(entries.len(), |i: int| text_line((i + 1) as nat, entries[i])), seq!['\n'])
}

/// The ranking as a table: the header row, then one row per entry.
pub open spec fn csv_output(entries: Seq<(Seq<char>, u64)>) -> Seq<char> {
    joined(
        seq!["Rank,Word,Frequency"@] + Seq::new(
            entries.len(),
            |i: int| csv_line((i + 1) as nat, entries[i]),
        ),
        seq!['\n'],
    )
}

/// The ranking as a JSON array of records, in rank order.  The keys of
/// `entries` are already written as JSON strings.
pub open spec fn json_output(entries: Seq<(Seq<char>, u64)>) -> Seq<char> {
    seq!['['] + joined(Seq::new(entries.len(), |i: int| json_record(entries[i])), seq![','])
        + seq![']']
}

/// Joining a list that ends in `part` appends the separator and `part` to
/// what the list before it joins to; a first part stands alone.
pub proof fn lemma_joined_push(parts: Seq<Seq<char>>, part: Seq<char>, separator: Seq<char>)
    ensures
        joined(parts.push(part), separator) == if parts.len() == 0 {
            part
        } else {
            joined(parts, separator) + separator + part
        },
{
    assert(parts.push(part).drop_last() =~= parts);
}

/// The numeral of one decimal digit.
fn digit_text(d: u64) -> (text: &'static str)
    requires
        d < 10,
    ensures
        text@ == seq![digit(d as nat)],
{
    proof {
        reveal_strlit("0");
        reveal_strlit("1");
        reveal_strlit("2");
        reveal_strlit("3");
        reveal_strlit("4");
        reveal_strlit("5");
        reveal_strlit("6");
        reveal_strlit("7");
        reveal_strlit("8");
        reveal_strlit("9");
    }
    match d {
        0 => "0",
        1 => "1",
        2 => "2",
        3 => "3",
        4 => "4",
        5 => "5",
        6 => "6",
        7 => "7",
        8 => "8",
        _ => "9",
    }
}

/// Appends the decimal numeral of `n` to `out`.
pub fn append_decimal(out: &mut String, n: u64)
    ensures
        final(out)@ == old(out)@ + decimal(n as nat),
    decreases n,
{
    if n >= 10 {
        append_decimal(out, n / 10);
    }
    out.append(digit_text(n % 10));
}

/// Appends `n` spaces to `out`.
fn append_spaces(out: &mut String, n: usize)
    ensures
        final(out)@ == old(out)@ + spaces(n as nat),
{
    let mut i: usize = 0;
    while i < n
        invariant
            i <= n,
            out@ == old(out)@ + spaces(i as nat),
        decreases n - i,
    {
        out.append(" ");
        i += 1;
        proof {
            reveal_strlit(" ");
        }
    }
}

/// Appends `text` to `out`, moved to the right of a field of `width`
/// characters.
fn append_right_aligned(out: &mut String, text: &str, width: usize)
    ensures
        final(out)@ == old(out)@ + right_aligned(text@, width as nat),
{
    let length = text.unicode_len();
    if length < width {
        append_spaces(out, width - length);
    }
    out.append(text);
}

/// Appends `text` to `out`, at the left of a field of `width` characters.
fn append_left_aligned(out: &mut String, text: &str, width: usize)
    ensures
        final(out)@ == old(out)@ + left_aligned(text@, width as nat),
{
    let length = text.unicode_len();
    out.append(text);
    if length < width {
        append_spaces(out, width - length);
    }
}

/// The columns of the line of plain text for one entry, each as a text of its
/// own, for a caller that sets them apart by other means than spaces alone.
pub fn columns_of(rank: u64, word: &str, count: u64) -> (columns: (String, String, String))
    ensures
        (columns.0@, columns.1@, columns.2@) == text_columns(rank as nat, (word@, count)),
{
    let mut numeral = String::new();
    append_decimal(&mut numeral, rank);
    let mut first = String::new();
    append_right_aligned(&mut first, numeral.as_str(), 2);
    let mut second = String::new();
    append_left_aligned(&mut second, word, 15);
    let mut third = String::new();
    append_decimal(&mut third, count);
    (first, second, third)
}

/// Appends the line of plain text for one entry to `out`.
fn append_text_line(out: &mut String, rank: u64, word: &str, count: u64)
    ensures
        final(out)@ == old(out)@ + text_line(rank as nat, (word@, count)),
{
    let mut numeral = String::new();
    append_decimal(&mut numeral, rank);
    append_right_aligned(out, numeral.as_str(), 2);
    out.append(". ");
    append_left_aligned(out, word, 15);
    out.append(" ");
    append_decimal(out, count);
    proof {
        reveal_strlit(". ");
        reveal_strlit(" ");
    }
}

/// Appends the table row of one entry to `out`.
fn append_csv_line(out: &mut String, rank: u64, word: &str, count: u64)
    ensures
        final(out)@ == old(out)@ + csv_line(rank as nat, (word@, count)),
{
    append_decimal(out, rank);
    out.append(",");
    out.append(word);
    out.append(",");
    append_decimal(out, count);
    proof {
        reveal_strlit(",");
    }
}

/// Appends the JSON record of one entry, whose key is already written as a
/// JSON string, to `out`.
fn append_json_record(out: &mut String, quoted: &str, count: u64)
    ensures
        final(out)@ == old(out)@ + json_record((quoted@, count)),
{
    out.append("{\"word\":");
    out.append(quoted);
    out.append(",\"frequency\":");
    append_decimal(out, count);
    out.append("}");
    proof {
        reveal_strlit("}");
    }
}

/// Renders a ranking as plain text.
pub fn render_text(entries: &Vec<(String, u64)>) -> (out: String)
    ensures
        out@ == text_output(entries.deep_view()),
{
    let ghost view = entries.deep_view();
    let ghost lines = Seq::new(view.len(), |i: int| text_line((i + 1) as nat, view[i]));
    let mut out = String::new();
    let mut i: usize = 0;
    while i < entries.len()
        invariant
            i <= entries.len(),
            view == entries.deep_view(),
            lines == Seq::new(view.len(), |i: int| text_line((i + 1) as nat, view[i])),
            out@ == joined(lines.take(i as int), seq!['\n']),
        decreases entries.len() - i,
    {
        proof {
            reveal_strlit("\n");
            assert(lines.take(i + 1) =~= lines.take(i as int).push(lines[i as int]));
            lemma_joined_push(lines.take(i as int), lines[i as int], seq!['\n']);
        }
        if i > 0 {
            out.append("\n");
        }
        let entry = &entries[i];
        append_text_line(&mut out, (i + 1) as u64, entry.0.as_str(), entry.1);
        i += 1;
    }
    assert(lines.take(entries.len() as int) =~= lines);
    out
}

/// Renders a ranking as a table of comma-separated values, under its header.
pub fn render_csv(entries: &Vec<(String, u64)>) -> (out: String)
    ensures
        out@ == csv_output(entries.deep_view()),
{
    let ghost view = entries.deep_view();
    let ghost rows = Seq::new(view.len(), |i: int| csv_line((i + 1) as nat, view[i]));
    let ghost header = seq!["Rank,Word,Frequency"@];
    let mut out = String::from_str("Rank,Word,Frequency");
    let mut i: usize = 0;
    while i < entries.len()
        invariant
            i <= entries.len(),
            view == entries.deep_view(),
            rows == Seq::new(view.len(), |i: int| csv_line((i + 1) as nat, view[i])),
            header == seq!["Rank,Word,Frequency"@],
            out@ == joined(header + rows.take(i as int), seq!['\n']),
        decreases entries.len() - i,
    {
        proof {
            reveal_strlit("\n");
            assert(header + rows.take(i + 1) =~= (header + rows.take(i as int)).push(
                rows[i as int],
            ));
            lemma_joined_push(header + rows.take(i as int), rows[i as int], seq!['\n']);
        }
        out.append("\n");
        let entry = &entries[i];
        append_csv_line(&mut out, (i + 1) as u64, entry.0.as_str(), entry.1);
        i += 1;
    }
    assert(rows.take(entries.len() as int) =~= rows);
    out
}

/// Renders a ranking as a JSON array of records.  The keys of `entries` are
/// already written as JSON strings.
pub fn render_json(entries: &Vec<(String, u64)>) -> (out: String)
    ensures
        out@ == json_output(entries.deep_view()),
{
    let ghost view = entries.deep_view();
    let ghost records = Seq::new(view.len(), |i: int| json_record(view[i]));
    let mut out = String::from_str("[");
    let mut i: usize = 0;
    proof {
        reveal_strlit("[");
        reveal_strlit(",");
        reveal_strlit("]");
    }
    while i < entries.len()
        invariant
            i <= entries.len(),
            view == entries.deep_view(),
            records == Seq::new(view.len(), |i: int| json_record(view[i])),
            ","@ == seq![','],
            out@ == seq!['['] + joined(records.take(i as int), seq![',']),
        decreases entries.len() - i,
    {
        proof {
            assert(records.take(i + 1) =~= records.take(i as int).push(records[i as int]));
            lemma_joined_push(records.take(i as int), records[i as int], seq![',']);
        }
        if i > 0 {
            out.append(",");
        }
        let entry = &entries[i];
        append_json_record(&mut out, entry.0.as_str(), entry.1);
        i += 1;
    }
    assert(records.take(entries.len() as int) =~= records);
    out.append("]");
    out
}

} // verus!
