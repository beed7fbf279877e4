//! The layout of a dataset file: a header line of tab-separated column names, then
//! one line per time step holding the time index and one cell per series.
use vstd::prelude::*;
use crate::names::{split_pieces, split_on};

verus! {

/// `l` without one trailing carriage return.
pub open spec fn strip_cr(l: Seq<char>) -> Seq<char> {
    if l.len() > 0 && l.last() == '\r' { l.drop_last() } else { l }
}

/// The lines of `s` as `str::lines` yields them: split at `\n`, each line that a
/// `\n` ends loses one trailing `\r`, and a final empty piece is no line.
pub open spec fn lines_of(s: Seq<char>) -> Seq<Seq<char>> {
    let p = split_pieces(s, '\n');
    let body = Seq::new((p.len() - 1) as nat, |i: int| strip_cr(p[i]));
    if p.last().len() == 0 { body } else { body.push(p.last()) }
}

/// Relies on `str::lines`: the lines of the text, in order.
#[verifier::external_body]
fn text_lines(s: &str) -> (r: Vec<String>)
    ensures
        r@.len() == lines_of(s@).len(),
        forall|i: int| 0 <= i < r@.len() ==> (#[trigger] r@[i])@ == lines_of(s@)[i],
{
    s.lines().map(|l| l.to_string()).collect()
}

/// The cells of a dataset file, as text.
pub struct Table {
    /// The column names after the first one, one per series.
    pub names: Vec<String>,
    /// The first cell of each data line.
    pub index: Vec<String>,
    /// For each data line, its cells after the first, at most one per series.
    pub cells: Vec<Vec<String>>,
}

pub open spec fn min_int(a: int, b: int) -> int {
    if a <= b { a } else { b }
}

/// The cells after the first of `pieces`, at most `n` of them.
fn tail_cells(pieces: &Vec<String>, n: usize) -> (r: Vec<String>)
    requires
        pieces@.len() >= 1,
    ensures
        r@.len() == min_int(pieces@.len() - 1, n as int),
        forall|c: int| 0 <= c < r@.len() ==> (#[trigger] r@[c])@ == pieces@[c + 1]@,
{
    let mut r: Vec<String> = Vec::new();
    let mut c: usize = 1;
    while c < pieces.len() && c - 1 < n
        invariant
            1 <= c <= pieces@.len(),
            c - 1 <= n,
            r@.len() == c - 1,
            forall|x: int| 0 <= x < r@.len() ==> (#[trigger] r@[x])@ == pieces@[x + 1]@,
        decreases pieces@.len() - c,
    {
        r.push(pieces[c].clone());
        c += 1;
    }
    r
}

proof fn lemma_split_nonempty(s: Seq<char>, sep: char)
    ensures
        split_pieces(s, sep).len() >= 1,
    decreases s.len(),
{
    if s.len() > 0 {
        lemma_split_nonempty(s.drop_last(), sep);
    }
}

/// Splits a dataset file into column names, time index and cells; fails on a file
/// without lines.
pub fn split_table(content: &str) -> (r: Result<Table, String>)
    ensures
        r is Err <==> lines_of(content@).len() == 0,
        r matches Err(e) ==> e@ == "Empty file"@,
        r matches Ok(t) ==> {
            let lines = lines_of(content@);
            let header = split_pieces(lines[0], '\t');
            &&& t.names@.len() == header.len() - 1
            &&& forall|c: int| 0 <= c < t.names@.len() ==> (#[trigger] t.names@[c])@ == header[c + 1]
            &&& t.index@.len() == lines.len() - 1
            &&& t.cells@.len() == lines.len() - 1
            &&& forall|i: int| 0 <= i < t.index@.len() ==> (#[trigger] t.index@[i])@ == split_pieces(lines[i + 1], '\t')[0]
            &&& forall|i: int| 0 <= i < t.cells@.len() ==> (#[trigger] t.cells@[i])@.len() == min_int(
                split_pieces(lines[i + 1], '\t').len() - 1,
                header.len() - 1,
            )
            &&& forall|i: int, c: int| 0 <= i < t.cells@.len() && 0 <= c < t.cells@[i]@.len()
                ==> (#[trigger] t.cells@[i]@[c])@ == split_pieces(lines[i + 1], '\t')[c + 1]
        },
{
    let lines = text_lines(content);
    if lines.len() == 0 {
        return Err("Empty file".to_owned());
    }
    let header = split_on(lines[0].as_str(), '\t');
    proof {
        lemma_split_nonempty(lines@[0]@, '\t');
    }
    let names = tail_cells(&header, header.len() - 1);
    let n = names.len();
    let mut index: Vec<String> = Vec::new();
    let mut cells: Vec<Vec<String>> = Vec::new();
    let mut i: usize = 1;
    while i < lines.len()
        invariant
            1 <= i <= lines@.len(),
            n == header@.len() - 1,
            lines@.len() == lines_of(content@).len(),
            forall|x: int| 0 <= x < lines@.len() ==> (#[trigger] lines@[x])@ == lines_of(content@)[x],
            index@.len() == i - 1,
            cells@.len() == i - 1,
            forall|x: int| 0 <= x < index@.len() ==> (#[trigger] index@[x])@ == split_pieces(lines@[x + 1]@, '\t')[0],
            forall|x: int| 0 <= x < cells@.len() ==> (#[trigger] cells@[x])@.len() == min_int(
                split_pieces(lines@[x + 1]@, '\t').len() - 1,
                n as int,
            ),
            forall|x: int, c: int| 0 <= x < cells@.len() && 0 <= c < cells@[x]@.len()
                ==> (#[trigger] cells@[x]@[c])@ == split_pieces(lines@[x + 1]@, '\t')[c + 1],
        decreases lines@.len() - i,
    {
        let pieces = split_on(lines[i].as_str(), '\t');
        proof {
            lemma_split_nonempty(lines@[i as int]@, '\t');
        }
        index.push(pieces[0].clone());
        let row = tail_cells(&pieces, n);
        cells.push(row);
        i += 1;
    }
    Ok(Table { names, index, cells })
}

} // verus!
