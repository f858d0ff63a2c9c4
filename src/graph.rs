use vstd::prelude::*;
use crate::event::{State, state_of_label, str_2_state};
use crate::text::{split, split_bytes, decimal, parse_decimal, views};

verus! {

/// The byte `\n`.
pub const NEWLINE: u8 = 10;

/// The byte `\r`.
pub const CARRIAGE_RETURN: u8 = 13;

/// The byte `;`, which separates the fields of a line.
pub const FIELD_SEP: u8 = 59;

/// The byte `,`, which separates neighbour ids.
pub const LIST_SEP: u8 = 44;

/// Lines shorter than this are skipped.
pub const MIN_LINE_LEN: usize = 3;

/// Why a graph file was refused; `line` counts lines from zero.
#[derive(Clone, Copy, Debug, PartialEq, Eq, Structural)]
pub enum ParseError {
    /// The line has fewer than three `;`-separated fields.
    MissingField { line: usize },
    /// A node id or a neighbour id is not a decimal number.
    BadNumber { line: usize },
    /// The state is neither `S` nor `I`.
    UnknownState { line: usize },
}

/// The contents of a graph file, one entry per node in file order: the id
/// written on its line, its initial state and its neighbours.
pub struct GraphInput {
    pub ids: Vec<usize>,
    pub states: Vec<State>,
    pub adjacency: Vec<Vec<usize>>,
}

/// A line without its trailing carriage return, if any.
pub open spec fn strip_cr(l: Seq<u8>) -> Seq<u8> {
    if l.len() > 0 && l.last() == CARRIAGE_RETURN { l.drop_last() } else { l }
}

/// The values of a list of decimal numbers, if all of them are.
pub open spec fn decimals(parts: Seq<Seq<u8>>) -> Option<Seq<usize>>
    decreases parts.len(),
{
    if parts.len() == 0 {
        Some(Seq::<usize>::empty())
    } else {
        match (decimals(parts.drop_last()), decimal(parts.last())) {
            (Some(vs), Some(v)) => Some(vs.push(v)),
            _ => None,
        }
    }
}

/// The neighbour list field: empty, or comma-separated decimal ids.
pub open spec fn neighbor_list(f: Seq<u8>) -> Option<Seq<usize>> {
    if f.len() == 0 { Some(Seq::<usize>::empty()) } else { decimals(split(f, LIST_SEP)) }
}

/// What one line of at least three bytes says: `id;state;neighbours`.
pub open spec fn line_of(l: Seq<u8>, line: usize) -> Result<(usize, State, Seq<usize>), ParseError> {
    let f = split(l, FIELD_SEP);
    if f.len() < 3 {
        Err(ParseError::MissingField { line })
    } else {
        match decimal(f[0]) {
            None => Err(ParseError::BadNumber { line }),
            Some(id) => match state_of_label(f[1]) {
                None => Err(ParseError::UnknownState { line }),
                Some(st) => match neighbor_list(f[2]) {
                    None => Err(ParseError::BadNumber { line }),
                    Some(nb) => Ok((id, st, nb)),
                },
            },
        }
    }
}

/// What the first `k` lines of a file say, short lines skipped.
pub open spec fn graph_of_lines(lines: Seq<Seq<u8>>, k: int) -> Result<(Seq<usize>, Seq<State>, Seq<Seq<usize>>), ParseError>
    decreases k,
{
    if k <= 0 {
        Ok((Seq::<usize>::empty(), Seq::<State>::empty(), Seq::<Seq<usize>>::empty()))
    } else {
        match graph_of_lines(lines, k - 1) {
            Err(e) => Err(e),
            Ok((ids, sts, adj)) => {
                let l = strip_cr(lines[k - 1]);
                if l.len() < MIN_LINE_LEN {
                    Ok((ids, sts, adj))
                } else {
                    match line_of(l, (k - 1) as usize) {
                        Err(e) => Err(e),
                        Ok((id, st, nb)) => Ok((ids.push(id), sts.push(st), adj.push(nb))),
                    }
                }
            },
        }
    }
}

/// What a whole graph file says.
pub open spec fn graph_of_text(text: Seq<u8>) -> Result<(Seq<usize>, Seq<State>, Seq<Seq<usize>>), ParseError> {
    let lines = split(text, NEWLINE);
    graph_of_lines(lines, lines.len() as int)
}

pub open spec fn adjacency_views(a: Seq<Vec<usize>>) -> Seq<Seq<usize>> {
    a.map_values(|x: Vec<usize>| x@)
}

/// Parses a list of decimal numbers.
pub fn parse_decimals(parts: &Vec<Vec<u8>>) -> (r: Option<Vec<usize>>)
    ensures
        r matches Some(v) ==> decimals(views(parts@)) == Some(v@),
        r is None ==> decimals(views(parts@)) is None,
{
    let mut out: Vec<usize> = Vec::new();
    let mut i: usize = 0;
    while i < parts.len()
        invariant
            i <= parts@.len(),
            decimals(views(parts@).subrange(0, i as int)) == Some(out@),
        decreases parts@.len() - i,
    {
        assert(views(parts@).subrange(0, i + 1).drop_last() =~= views(parts@).subrange(0, i as int));
        match parse_decimal(&parts[i]) {
            Some(v) => {
                out.push(v);
            },
            None => {
                proof {
                    lemma_decimals_prefix_none(views(parts@), i + 1);
                }
                return None;
            },
        }
        i += 1;
    }
    assert(views(parts@).subrange(0, parts@.len() as int) =~= views(parts@));
    Some(out)
}

proof fn lemma_decimals_prefix_none(p: Seq<Seq<u8>>, j: int)
    requires
        0 <= j <= p.len(),
        decimals(p.subrange(0, j)) is None,
    ensures
        decimals(p) is None,
    decreases p.len() - j,
{
    if j < p.len() {
        assert(p.subrange(0, j + 1).drop_last() =~= p.subrange(0, j));
        lemma_decimals_prefix_none(p, j + 1);
    } else {
        assert(p.subrange(0, j) =~= p);
    }
}

/// Parses one line `id;state;neighbours`.
pub fn parse_line(l: &Vec<u8>, line: usize) -> (r: Result<(usize, State, Vec<usize>), ParseError>)
    ensures
        r matches Ok((id, st, nb)) ==> line_of(l@, line) == Ok::<(usize, State, Seq<usize>), ParseError>((id, st, nb@)),
        r matches Err(e) ==> line_of(l@, line) == Err::<(usize, State, Seq<usize>), ParseError>(e),
{
    let fields = split_bytes(l, FIELD_SEP);
    if fields.len() < 3 {
        return Err(ParseError::MissingField { line });
    }
    assert(views(fields@)[0] == fields@[0]@);
    assert(views(fields@)[1] == fields@[1]@);
    assert(views(fields@)[2] == fields@[2]@);
    let id = match parse_decimal(&fields[0]) {
        Some(id) => id,
        None => {
            return Err(ParseError::BadNumber { line });
        },
    };
    let st = match str_2_state(fields[1].as_slice()) {
        Some(st) => st,
        None => {
            return Err(ParseError::UnknownState { line });
        },
    };
    if fields[2].len() == 0 {
        return Ok((id, st, Vec::new()));
    }
    let parts = split_bytes(&fields[2], LIST_SEP);
    match parse_decimals(&parts) {
        Some(nb) => Ok((id, st, nb)),
        None => Err(ParseError::BadNumber { line }),
    }
}

/// Reads a graph file: one line per node, `id;state;neighbours`, lines
/// split at `\n` with a trailing `\r` removed, and lines shorter than three
/// bytes skipped. The first line that cannot be read is reported.
pub fn setup_graph(text: &Vec<u8>) -> (r: Result<GraphInput, ParseError>)
    ensures
        r matches Ok(g) ==> graph_of_text(text@) == Ok::<(Seq<usize>, Seq<State>, Seq<Seq<usize>>), ParseError>((g.ids@, g.states@, adjacency_views(g.adjacency@))),
        r matches Err(e) ==> graph_of_text(text@) == Err::<(Seq<usize>, Seq<State>, Seq<Seq<usize>>), ParseError>(e),
{
    let lines = split_bytes(text, NEWLINE);
    let ghost ls = split(text@, NEWLINE);
    let mut ids: Vec<usize> = Vec::new();
    let mut states: Vec<State> = Vec::new();
    let mut adjacency: Vec<Vec<usize>> = Vec::new();
    let mut k: usize = 0;
    assert(adjacency_views(adjacency@) =~= Seq::<Seq<usize>>::empty());
    assert(ids@ =~= Seq::<usize>::empty());
    assert(states@ =~= Seq::<State>::empty());
    while k < lines.len()
        invariant
            views(lines@) == ls,
            ls == split(text@, NEWLINE),
            k <= lines@.len(),
            graph_of_lines(ls, k as int) == Ok::<(Seq<usize>, Seq<State>, Seq<Seq<usize>>), ParseError>((ids@, states@, adjacency_views(adjacency@))),
        decreases lines@.len() - k,
    {
        let raw = &lines[k];
        assert(ls[k as int] == raw@);
        let mut l: Vec<u8> = raw.clone();
        assert(l@ == raw@);
        if l.len() > 0 && l[l.len() - 1] == CARRIAGE_RETURN {
            l.pop();
        }
        assert(l@ =~= strip_cr(raw@));
        if l.len() >= MIN_LINE_LEN {
            match parse_line(&l, k) {
                Ok((id, st, nb)) => {
                    ids.push(id);
                    states.push(st);
                    let ghost before = adjacency@;
                    adjacency.push(nb);
                    assert(adjacency_views(adjacency@) =~= adjacency_views(before).push(nb@));
                    assert(graph_of_lines(ls, (k + 1) as int) == Ok::<(Seq<usize>, Seq<State>, Seq<Seq<usize>>), ParseError>((ids@, states@, adjacency_views(adjacency@))));
                },
                Err(e) => {
                    proof {
                        assert(graph_of_lines(ls, (k + 1) as int) == Err::<(Seq<usize>, Seq<State>, Seq<Seq<usize>>), ParseError>(e));
                        assert(ls.len() == lines@.len());
                        lemma_graph_spec_err(ls, (k + 1) as int);
                    }
                    return Err(e);
                },
            }
        }
        assert(graph_of_lines(ls, (k + 1) as int) == Ok::<(Seq<usize>, Seq<State>, Seq<Seq<usize>>), ParseError>((ids@, states@, adjacency_views(adjacency@))));
        k += 1;
    }
    Ok(GraphInput { ids, states, adjacency })
}

proof fn lemma_graph_spec_err(lines: Seq<Seq<u8>>, j: int)
    requires
        0 <= j <= lines.len(),
        graph_of_lines(lines, j) is Err,
    ensures
        graph_of_lines(lines, lines.len() as int) == graph_of_lines(lines, j),
    decreases lines.len() - j,
{
    if j < lines.len() {
        lemma_graph_spec_err(lines, j + 1);
    }
}

} // verus!
