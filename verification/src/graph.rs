//! Reading a graph from its textual form:
//! ```text
//! <nodes_number>
//! <edges_number>
//! <edge1>
//! <edge2>
//! ```
//! where each edge line is `<from> <to>`.  Empty lines are ignored.  The
//! graph representation itself stays behind the `ConstructGraph` trait; this
//! module owns the parsing.

use vstd::prelude::*;
use vstd::string::StrSliceExecFns;
use vstd::string::StringExecFns;

verus! {

/// A point of the drawing area.
#[derive(Debug, PartialEq, Eq, Structural)]
pub struct Point {
    pub x: u32,
    pub y: u32,
}

/// A drawing surface: lines and circles on a fixed area, exported when the
/// picture is done.  Implementations wrap concrete drawing backends.
pub trait DrawingApi {
    fn get_area_width(&self) -> u32;

    fn get_area_height(&self) -> u32;

    fn draw_line(&mut self, from: &Point, to: &Point);

    fn draw_circle(&mut self, position: &Point, radius: u32);

    fn export_svg(&self, file: &String);
}

/// Growing a graph: nodes one by one, then edges between them.
pub trait ConstructGraph<Ix: Clone>: Sized {
    fn new(nodes: usize, edges: usize) -> Self;

    fn add_node(&mut self) -> Ix;

    fn add_edge(&mut self, from: Ix, to: Ix);
}

/// Reading a graph from its textual form.
pub trait ReadGraph: Sized {
    fn read_from_str(s: &String) -> Result<Self, String>;
}

/// Splitting from position `i` with the piece `cur` already read: the
/// pieces of `s` between occurrences of `sep`.
pub open spec fn split_from(cur: Seq<char>, s: Seq<char>, i: int, sep: char) -> Seq<Seq<char>>
    decreases s.len() - i,
{
    if i < 0 || i >= s.len() {
        seq![cur]
    } else if s[i] == sep {
        seq![cur] + split_from(Seq::empty(), s, i + 1, sep)
    } else {
        split_from(cur.push(s[i]), s, i + 1, sep)
    }
}

/// The pieces of `s` between occurrences of `sep`; splitting never yields
/// fewer than one piece, and consecutive separators yield empty pieces.
pub open spec fn split_all(s: Seq<char>, sep: char) -> Seq<Seq<char>> {
    split_from(Seq::empty(), s, 0, sep)
}

/// The pieces with the empty ones dropped, in order.
pub open spec fn drop_empty(ls: Seq<Seq<char>>) -> Seq<Seq<char>>
    decreases ls.len(),
{
    if ls.len() == 0 {
        Seq::empty()
    } else if ls.last().len() == 0 {
        drop_empty(ls.drop_last())
    } else {
        drop_empty(ls.drop_last()).push(ls.last())
    }
}

/// A decimal digit.
pub open spec fn is_digit(c: char) -> bool {
    48 <= c as u32 <= 57
}

/// The value of a digit sequence read as a decimal numeral.
pub open spec fn chars_val(l: Seq<char>) -> nat
    decreases l.len(),
{
    if l.len() == 0 {
        0
    } else {
        (chars_val(l.drop_last()) * 10 + ((l.last() as u32) - 48)) as nat
    }
}

/// The digits of a numeral, behind an optional leading plus sign.
pub open spec fn digits_part(l: Seq<char>) -> Seq<char> {
    if l.len() > 0 && l[0] == '+' {
        l.drop_first()
    } else {
        l
    }
}

/// What `usize::from_str` accepts: an optional `+`, then at least one
/// digit, with the value fitting the machine word.
pub open spec fn spec_parse_usize(l: Seq<char>) -> Option<usize> {
    let d = digits_part(l);
    if d.len() > 0 && (forall|i: int| 0 <= i < d.len() ==> is_digit(#[trigger] d[i]))
        && chars_val(d) <= usize::MAX {
        Some(chars_val(d) as usize)
    } else {
        None
    }
}

/// The integer-parse error a numeral fails with, in scan order: an invalid
/// digit or an overflow at the position where the scan meets it.
pub open spec fn scan_err(d: Seq<char>, acc: nat, i: int) -> Seq<char>
    decreases d.len() - i,
{
    if i < 0 || i >= d.len() {
        "number too large to fit in target type"@
    } else if !is_digit(d[i]) {
        "invalid digit found in string"@
    } else if acc * 10 + ((d[i] as u32) - 48) > usize::MAX {
        "number too large to fit in target type"@
    } else {
        scan_err(d, (acc * 10 + ((d[i] as u32) - 48)) as nat, i + 1)
    }
}

/// The error text `usize::from_str` reports for a failing numeral.
pub open spec fn parse_usize_err(l: Seq<char>) -> Seq<char> {
    let d = digits_part(l);
    if d.len() == 0 {
        "cannot parse integer from empty string"@
    } else {
        scan_err(d, 0, 0)
    }
}

/// The error of the first failing token of an edge line, or the fixed text
/// for a line whose tokens all parse but number fewer than two.
pub open spec fn first_tok_err(toks: Seq<Seq<char>>, k: int) -> Seq<char>
    decreases toks.len() - k,
{
    if k < 0 || k >= toks.len() {
        "malformed graph text"@
    } else if spec_parse_usize(toks[k]) is None {
        parse_usize_err(toks[k])
    } else {
        first_tok_err(toks, k + 1)
    }
}

/// The error text of an edge line.
pub open spec fn edge_err(l: Seq<char>) -> Seq<char> {
    first_tok_err(split_all(l, ' '), 0)
}

/// The error of the first failing edge line.
pub open spec fn edges_err(ls: Seq<Seq<char>>, i: int) -> Seq<char>
    decreases ls.len() - i,
{
    if i < 0 || i >= ls.len() {
        "malformed graph text"@
    } else if spec_parse_edge(ls[i]) is None {
        edge_err(ls[i])
    } else {
        edges_err(ls, i + 1)
    }
}

/// The error text a malformed graph text is refused with: the standard
/// integer-parse error of the first numeral that fails, and a fixed text
/// where the shape itself is short (too few lines, or an edge line with
/// fewer than two fields).
pub open spec fn spec_read_graph_err(s: Seq<char>) -> Seq<char> {
    let ls = drop_empty(split_all(s, '\n'));
    if ls.len() < 2 {
        "malformed graph text"@
    } else if spec_parse_usize(ls[0]) is None {
        parse_usize_err(ls[0])
    } else if spec_parse_usize(ls[1]) is None {
        parse_usize_err(ls[1])
    } else {
        edges_err(ls, 2)
    }
}

/// One edge line: at least two tokens, every token a numeral; the first two
/// are the endpoints.
pub open spec fn spec_parse_edge(l: Seq<char>) -> Option<(usize, usize)> {
    let toks = split_all(l, ' ');
    if toks.len() >= 2 && (forall|k: int|
        0 <= k < toks.len() ==> spec_parse_usize(#[trigger] toks[k]) is Some) {
        Some((spec_parse_usize(toks[0]).unwrap(), spec_parse_usize(toks[1]).unwrap()))
    } else {
        None
    }
}

/// The edges on the lines from `i` on.
pub open spec fn spec_edges_from(ls: Seq<Seq<char>>, i: int) -> Option<Seq<(usize, usize)>>
    decreases ls.len() - i,
{
    if i < 0 || i >= ls.len() {
        Some(Seq::empty())
    } else {
        match (spec_parse_edge(ls[i]), spec_edges_from(ls, i + 1)) {
            (Some(e), Some(rest)) => Some(seq![e] + rest),
            _ => None,
        }
    }
}

/// What the graph text describes: the node count, the edge count, and the
/// edges, or nothing when the text is malformed.
pub open spec fn spec_read_graph(s: Seq<char>) -> Option<(usize, usize, Seq<(usize, usize)>)> {
    let ls = drop_empty(split_all(s, '\n'));
    if ls.len() < 2 {
        None
    } else {
        match (spec_parse_usize(ls[0]), spec_parse_usize(ls[1])) {
            (Some(n), Some(m)) => match spec_edges_from(ls, 2) {
                Some(es) => Some((n, m, es)),
                None => None,
            },
            _ => None,
        }
    }
}

/// The pieces of the range between occurrences of `sep`, each as its index
/// range in `s`.
fn split_pieces(s: &str, from: usize, to: usize, sep: char) -> (r: Vec<(usize, usize)>)
    requires
        from <= to <= s@.len(),
    ensures
        pieces_view(s@, r@) == split_all(s@.subrange(from as int, to as int), sep),
        forall|k: int| 0 <= k < r@.len() ==> from <= (#[trigger] r@[k]).0 <= r@[k].1 <= to,
{
    let ghost sub = s@.subrange(from as int, to as int);
    let mut out: Vec<(usize, usize)> = Vec::new();
    let mut start: usize = from;
    let mut i: usize = from;
    proof {
        assert(s@.subrange(from as int, from as int) =~= Seq::<char>::empty());
        assert(pieces_view(s@, out@) =~= Seq::<Seq<char>>::empty());
        assert(pieces_view(s@, out@) + split_from(Seq::empty(), sub, 0, sep) =~= split_from(
            Seq::empty(),
            sub,
            0,
            sep,
        ));
    }
    while i < to
        invariant
            from <= start <= i <= to <= s@.len(),
            sub == s@.subrange(from as int, to as int),
            forall|k: int| 0 <= k < out@.len() ==> from <= (#[trigger] out@[k]).0 <= out@[k].1
                <= to,
            split_all(sub, sep) == pieces_view(s@, out@) + split_from(
                s@.subrange(start as int, i as int),
                sub,
                i - from,
                sep,
            ),
        decreases to - i,
    {
        let c = s.get_char(i);
        proof {
            assert(sub[i - from] == s@[i as int]);
        }
        if c == sep {
            let ghost cur = s@.subrange(start as int, i as int);
            let ghost p_old = pieces_view(s@, out@);
            let ghost rest = split_from(Seq::empty(), sub, i + 1 - from, sep);
            out.push((start, i));
            proof {
                assert(split_from(cur, sub, i - from, sep) == seq![cur] + rest);
                assert(pieces_view(s@, out@) =~= p_old.push(cur));
                assert(p_old.push(cur) + rest =~= p_old + (seq![cur] + rest));
                assert(s@.subrange(i + 1, i + 1) =~= Seq::<char>::empty());
                assert(split_from(s@.subrange(i + 1, i + 1), sub, i + 1 - from, sep) == rest);
            }
            start = i + 1;
        } else {
            proof {
                assert(s@.subrange(start as int, i + 1) =~= s@.subrange(
                    start as int,
                    i as int,
                ).push(s@[i as int]));
            }
        }
        i += 1;
    }
    out.push((start, to));
    proof {
        assert(pieces_view(s@, out@) =~= pieces_view(s@, out@.drop_last()).push(
            s@.subrange(start as int, to as int),
        ));
    }
    out
}

/// The ranges read back as pieces of `s`.
pub open spec fn pieces_view(s: Seq<char>, rs: Seq<(usize, usize)>) -> Seq<Seq<char>> {
    rs.map_values(|p: (usize, usize)| s.subrange(p.0 as int, p.1 as int))
}

/// Drops the empty ranges.
fn filter_non_empty(s: &str, rs: Vec<(usize, usize)>) -> (r: Vec<(usize, usize)>)
    requires
        forall|k: int| 0 <= k < rs@.len() ==> (#[trigger] rs@[k]).0 <= rs@[k].1 <= s@.len(),
    ensures
        pieces_view(s@, r@) == drop_empty(pieces_view(s@, rs@)),
        forall|k: int| 0 <= k < r@.len() ==> (#[trigger] r@[k]).0 < r@[k].1 <= s@.len(),
{
    let mut out: Vec<(usize, usize)> = Vec::new();
    let mut i: usize = 0;
    while i < rs.len()
        invariant
            0 <= i <= rs@.len(),
            forall|k: int| 0 <= k < rs@.len() ==> (#[trigger] rs@[k]).0 <= rs@[k].1 <= s@.len(),
            forall|k: int| 0 <= k < out@.len() ==> (#[trigger] out@[k]).0 < out@[k].1
                <= s@.len(),
            pieces_view(s@, out@) == drop_empty(pieces_view(s@, rs@.take(i as int))),
        decreases rs@.len() - i,
    {
        proof {
            assert(pieces_view(s@, rs@.take(i + 1)).drop_last() =~= pieces_view(
                s@,
                rs@.take(i as int),
            ));
            assert(pieces_view(s@, rs@.take(i + 1)).last() == s@.subrange(
                rs@[i as int].0 as int,
                rs@[i as int].1 as int,
            ));
        }
        let (a, b) = rs[i];
        if a < b {
            out.push((a, b));
            proof {
                assert(pieces_view(s@, out@) =~= pieces_view(s@, out@.drop_last()).push(
                    s@.subrange(a as int, b as int),
                ));
            }
        }
        i += 1;
    }
    proof {
        assert(rs@.take(rs@.len() as int) =~= rs@);
    }
    out
}

/// Reads `usize::from_str`'s language from an index range: an optional `+`,
/// then digits.  A failing numeral reports the integer-parse error text.
fn parse_piece(s: &str, from: usize, to: usize) -> (r: Result<usize, String>)
    requires
        from <= to <= s@.len(),
    ensures
        ({
            let piece = s@.subrange(from as int, to as int);
            match spec_parse_usize(piece) {
                Some(v) => r matches Ok(u) && u == v,
                None => r matches Err(e) && e@ == parse_usize_err(piece),
            }
        }),
{
    let ghost piece = s@.subrange(from as int, to as int);
    let mut start = from;
    if from < to && s.get_char(from) == '+' {
        start = from + 1;
        proof {
            assert(piece[0] == '+');
            assert(digits_part(piece) =~= s@.subrange(start as int, to as int));
        }
    } else {
        proof {
            assert(digits_part(piece) =~= s@.subrange(start as int, to as int));
        }
    }
    let ghost d = digits_part(piece);
    if start == to {
        proof {
            assert(d.len() == 0);
        }
        return Err(String::from_str("cannot parse integer from empty string"));
    }
    let mut acc: usize = 0;
    let mut i: usize = start;
    while i < to
        invariant
            start <= i <= to <= s@.len(),
            piece == s@.subrange(from as int, to as int),
            d == digits_part(piece),
            d == s@.subrange(start as int, to as int),
            start < to,
            forall|k: int| 0 <= k < i - start ==> is_digit(#[trigger] d[k]),
            acc == chars_val(d.take(i - start)),
            chars_val(d.take(i - start)) <= usize::MAX,
            scan_err(d, 0, 0) == scan_err(d, acc as nat, i - start),
        decreases to - i,
    {
        let c = s.get_char(i);
        proof {
            assert(d[i - start] == s@[i as int]);
            assert(d.take(i - start + 1).drop_last() =~= d.take(i - start));
            assert(d.take(i - start + 1).last() == d[i - start]);
        }
        let u = c as u32;
        if !(48 <= u && u <= 57) {
            proof {
                assert(!is_digit(d[i - start]));
                assert(scan_err(d, acc as nat, i - start) == "invalid digit found in string"@);
            }
            return Err(String::from_str("invalid digit found in string"));
        }
        let digit = (u - 48) as usize;
        let shifted = match acc.checked_mul(10) {
            Some(x) => x,
            None => {
                proof {
                    if forall|k: int| 0 <= k < d.len() ==> is_digit(#[trigger] d[k]) {
                        lemma_chars_val_prefix(d, i - start + 1);
                        assert(chars_val(d.take(i - start + 1)) > usize::MAX);
                    }
                    assert(scan_err(d, acc as nat, i - start)
                        == "number too large to fit in target type"@);
                }
                return Err(String::from_str("number too large to fit in target type"));
            },
        };
        acc = match shifted.checked_add(digit) {
            Some(x) => x,
            None => {
                proof {
                    if forall|k: int| 0 <= k < d.len() ==> is_digit(#[trigger] d[k]) {
                        lemma_chars_val_prefix(d, i - start + 1);
                        assert(chars_val(d.take(i - start + 1)) > usize::MAX);
                    }
                    assert(scan_err(d, acc as nat, i - start)
                        == "number too large to fit in target type"@);
                }
                return Err(String::from_str("number too large to fit in target type"));
            },
        };
        i += 1;
    }
    proof {
        assert(d.take(to - start) =~= d);
    }
    Ok(acc)
}

/// A numeral of digits is at least as large as any of its prefixes.
proof fn lemma_chars_val_prefix(l: Seq<char>, i: int)
    requires
        0 <= i <= l.len(),
        forall|k: int| 0 <= k < l.len() ==> is_digit(#[trigger] l[k]),
    ensures
        chars_val(l) >= chars_val(l.take(i)),
    decreases l.len() - i,
{
    if i == l.len() {
        assert(l.take(i) =~= l);
    } else {
        lemma_chars_val_prefix(l, i + 1);
        assert(l.take(i + 1).drop_last() =~= l.take(i));
        assert(l.take(i + 1).last() == l[i]);
        assert(is_digit(l[i]));
        assert(chars_val(l.take(i + 1)) >= chars_val(l.take(i))) by {
            assert(chars_val(l.take(i)) * 10 >= chars_val(l.take(i)));
        }
    }
}

/// The parsed front matter and edges of the graph text, or an error for a
/// malformed text.
pub fn parse_graph_text(s: &String) -> (r: Result<(usize, usize, Vec<(usize, usize)>), String>)
    ensures
        r is Ok <==> spec_read_graph(s@) is Some,
        r matches Ok(v) ==> Some((v.0, v.1, v.2@)) == spec_read_graph(s@),
        r matches Err(e) ==> e@ == spec_read_graph_err(s@),
{
    let st = s.as_str();
    let n_chars = st.unicode_len();
    let raw = split_pieces(st, 0, n_chars, '\n');
    proof {
        assert(s@.subrange(0, s@.len() as int) =~= s@);
    }
    let lines = filter_non_empty(st, raw);
    let ghost ls = drop_empty(split_all(s@, '\n'));
    proof {
        assert(pieces_view(s@, lines@) == ls);
        assert(forall|k: int|
            0 <= k < lines@.len() ==> ls[k] == s@.subrange(
                (#[trigger] lines@[k]).0 as int,
                lines@[k].1 as int,
            ));
    }
    if lines.len() < 2 {
        proof {
            reveal_strlit("malformed graph text");
        }
        return Err(String::from_str("malformed graph text"));
    }
    proof {
        assert(ls[0] == s@.subrange(lines@[0].0 as int, lines@[0].1 as int));
        assert(ls[1] == s@.subrange(lines@[1].0 as int, lines@[1].1 as int));
    }
    let n = match parse_piece(st, lines[0].0, lines[0].1) {
        Ok(n) => n,
        Err(e) => {
            return Err(e);
        },
    };
    let m = match parse_piece(st, lines[1].0, lines[1].1) {
        Ok(m) => m,
        Err(e) => {
            return Err(e);
        },
    };
    let mut edges: Vec<(usize, usize)> = Vec::new();
    let mut i: usize = 2;
    while i < lines.len()
        invariant
            2 <= i <= lines@.len(),
            st@ == s@,
            ls == drop_empty(split_all(s@, '\n')),
            pieces_view(s@, lines@) == ls,
            forall|k: int| 0 <= k < lines@.len() ==> (#[trigger] lines@[k]).0 <= lines@[k].1
                <= s@.len(),
            spec_edges_from(ls, 2) == (match spec_edges_from(ls, i as int) {
                Some(rest) => Some(edges@ + rest),
                None => None::<Seq<(usize, usize)>>,
            }),
            edges_err(ls, 2) == edges_err(ls, i as int),
            ls.len() >= 2,
            spec_parse_usize(ls[0]) is Some,
            spec_parse_usize(ls[1]) is Some,
        decreases lines@.len() - i,
    {
        proof {
            assert(ls[i as int] == s@.subrange(
                lines@[i as int].0 as int,
                lines@[i as int].1 as int,
            ));
        }
        let (a, b) = lines[i];
        let edge = match parse_edge_piece(st, a, b) {
            Ok(e) => e,
            Err(e) => {
                proof {
                    assert(spec_parse_edge(ls[i as int]) is None);
                    assert(edges_err(ls, i as int) == edge_err(ls[i as int]));
                }
                return Err(e);
            },
        };
        proof {
            assert(spec_parse_edge(ls[i as int]) == Some(edge));
        }
        edges.push(edge);
        proof {
            assert(spec_edges_from(ls, i as int) == (match spec_edges_from(ls, i + 1) {
                Some(rest) => Some(seq![edge] + rest),
                None => None::<Seq<(usize, usize)>>,
            }));
            if spec_edges_from(ls, i + 1) is Some {
                assert(edges@.drop_last() + (seq![edge] + spec_edges_from(ls, i + 1).unwrap())
                    =~= edges@ + spec_edges_from(ls, i + 1).unwrap());
            }
        }
        i += 1;
    }
    proof {
        assert(spec_edges_from(ls, lines@.len() as int) == Some(
            Seq::<(usize, usize)>::empty(),
        ));
        assert(edges@ + Seq::<(usize, usize)>::empty() =~= edges@);
    }
    Ok((n, m, edges))
}

/// One edge line: the first two of its space-separated numerals.  The
/// first failing numeral names the error.
fn parse_edge_piece(s: &str, from: usize, to: usize) -> (r: Result<(usize, usize), String>)
    requires
        from <= to <= s@.len(),
    ensures
        ({
            let piece = s@.subrange(from as int, to as int);
            match spec_parse_edge(piece) {
                Some(e) => r matches Ok(v) && v == e,
                None => r matches Err(msg) && msg@ == edge_err(piece),
            }
        }),
{
    let ghost piece = s@.subrange(from as int, to as int);
    let toks = split_pieces(s, from, to, ' ');
    proof {
        assert(pieces_view(s@, toks@) == split_all(piece, ' '));
        assert(forall|k: int|
            0 <= k < toks@.len() ==> split_all(piece, ' ')[k] == s@.subrange(
                (#[trigger] toks@[k]).0 as int,
                toks@[k].1 as int,
            ));
    }
    let mut vals: Vec<usize> = Vec::new();
    let mut k: usize = 0;
    while k < toks.len()
        invariant
            0 <= k <= toks@.len(),
            vals@.len() == k,
            piece == s@.subrange(from as int, to as int),
            pieces_view(s@, toks@) == split_all(piece, ' '),
            forall|t: int| 0 <= t < toks@.len() ==> from <= (#[trigger] toks@[t]).0
                <= toks@[t].1 <= to,
            to <= s@.len(),
            forall|t: int|
                0 <= t < k ==> spec_parse_usize(#[trigger] split_all(piece, ' ')[t]) == Some(
                    vals@[t],
                ),
            first_tok_err(split_all(piece, ' '), 0) == first_tok_err(
                split_all(piece, ' '),
                k as int,
            ),
        decreases toks@.len() - k,
    {
        proof {
            assert(split_all(piece, ' ')[k as int] == s@.subrange(
                toks@[k as int].0 as int,
                toks@[k as int].1 as int,
            ));
        }
        let (a, b) = toks[k];
        match parse_piece(s, a, b) {
            Ok(v) => {
                vals.push(v);
            },
            Err(e) => {
                proof {
                    assert(spec_parse_usize(split_all(piece, ' ')[k as int]) is None);
                    assert(first_tok_err(split_all(piece, ' '), k as int) == parse_usize_err(
                        split_all(piece, ' ')[k as int],
                    ));
                }
                return Err(e);
            },
        }
        k += 1;
    }
    if vals.len() < 2 {
        proof {
            assert(first_tok_err(split_all(piece, ' '), toks@.len() as int)
                == "malformed graph text"@);
        }
        return Err(String::from_str("malformed graph text"));
    }
    proof {
        assert(spec_parse_edge(piece) == Some(
            (
                spec_parse_usize(split_all(piece, ' ')[0]).unwrap(),
                spec_parse_usize(split_all(piece, ' ')[1]).unwrap(),
            ),
        ));
    }
    Ok((vals[0], vals[1]))
}

/// Reads a graph in the textual format.  It succeeds exactly when the text
/// is well-formed — a node-count line, an edge-count line, and one `from
/// to` line per edge, blank lines ignored — and grows the graph through
/// `ConstructGraph`, adding each endpoint as a node at its first
/// occurrence.
pub fn read_graph<Ix: Clone, G: ConstructGraph<Ix>>(s: &String) -> (r: Result<G, String>)
    ensures
        r is Ok <==> spec_read_graph(s@) is Some,
{
    let (n, m, edges) = match parse_graph_text(s) {
        Ok(v) => v,
        Err(e) => {
            return Err(e);
        },
    };
    let mut graph = G::new(n, m);
    let mut nodes: Vec<(usize, Ix)> = Vec::new();
    let mut i: usize = 0;
    while i < edges.len()
        decreases edges@.len() - i,
    {
        let (from, to) = edges[i];
        let a = node_of(&mut graph, &mut nodes, from);
        let b = node_of(&mut graph, &mut nodes, to);
        graph.add_edge(a, b);
        i += 1;
    }
    Ok(graph)
}

/// The node standing for a textual identifier, added on first sight.
fn node_of<Ix: Clone, G: ConstructGraph<Ix>>(
    graph: &mut G,
    nodes: &mut Vec<(usize, Ix)>,
    key: usize,
) -> (r: Ix) {
    let mut i: usize = 0;
    while i < nodes.len()
        decreases nodes@.len() - i,
    {
        if nodes[i].0 == key {
            return nodes[i].1.clone();
        }
        i += 1;
    }
    let ix = graph.add_node();
    nodes.push((key, ix.clone()));
    ix
}

} // verus!
