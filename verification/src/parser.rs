use vstd::prelude::*;

use crate::direction::{parse_direction, Direction};
use crate::error::ParseError;
use crate::node::Node;
use crate::utils::{str_eq, INVALID_NODE};
use crate::world::World;

verus! {

/// Whitespace as the map format understands it.
pub open spec fn is_ws(c: char) -> bool {
    c == ' ' || c == '\t' || c == '\r' || c == '\n'
}

fn is_ws_char(c: char) -> (r: bool)
    ensures
        r == is_ws(c),
{
    c == ' ' || c == '\t' || c == '\r' || c == '\n'
}

/// Some name in the table reads as `s`.
pub open spec fn has_name(names: Seq<String>, s: Seq<char>) -> bool {
    exists|i: int| 0 <= i < names.len() && names[i]@ == s
}

/// No two entries of the name table read the same.
pub open spec fn names_distinct(names: Seq<String>) -> bool {
    forall|i: int, j: int| 0 <= i < j < names.len() ==> (#[trigger] names[i])@ != (#[trigger] names[j])@
}

/// The characters of each name in the table.
pub open spec fn views_of(names: Seq<String>) -> Seq<Seq<char>> {
    Seq::new(names.len(), |k: int| names[k]@)
}

/// The edges as the grammar sees them: source colony id, direction, and the
/// destination name's characters.
pub open spec fn edge_models(edges: Seq<(u32, Direction, String)>) -> Seq<
    (int, Direction, Seq<char>),
> {
    Seq::new(edges.len(), |k: int| (edges[k].0 as int, edges[k].1, edges[k].2@))
}

/// Index just past the current line: the first newline at or after `j`, or
/// the end of the text.
pub open spec fn sp_line_end(s: Seq<char>, j: int) -> int
    decreases s.len() - j,
    when 0 <= j <= s.len()
{
    if j >= s.len() || s[j] == '\n' {
        j
    } else {
        sp_line_end(s, j + 1)
    }
}

/// First non-whitespace position in `[p, end)`, or `end`.
pub open spec fn sp_skip_ws(s: Seq<char>, p: int, end: int) -> int
    decreases end - p,
    when 0 <= p <= end <= s.len()
{
    if p >= end || !is_ws(s[p]) {
        p
    } else {
        sp_skip_ws(s, p + 1, end)
    }
}

/// First whitespace position in `[p, end)`, or `end`.
pub open spec fn sp_token_end(s: Seq<char>, p: int, end: int) -> int
    decreases end - p,
    when 0 <= p <= end <= s.len()
{
    if p >= end || is_ws(s[p]) {
        p
    } else {
        sp_token_end(s, p + 1, end)
    }
}

/// Position of the first `=` in `t` at or after `i`, if any.
pub open spec fn sp_find_eq(t: Seq<char>, i: int) -> Option<int>
    decreases t.len() - i,
    when 0 <= i <= t.len()
{
    if i >= t.len() {
        None
    } else if t[i] == '=' {
        Some(i)
    } else {
        sp_find_eq(t, i + 1)
    }
}

/// Index of the first name reading `s`, at or after `i`, if any.
pub open spec fn sp_find_name(names: Seq<Seq<char>>, s: Seq<char>, i: int) -> Option<int>
    decreases names.len() - i,
    when 0 <= i <= names.len()
{
    if i >= names.len() {
        None
    } else if names[i] == s {
        Some(i)
    } else {
        sp_find_name(names, s, i + 1)
    }
}

/// The direction a token prefix names, if any.
pub open spec fn sp_dir_of(t: Seq<char>) -> Option<Direction> {
    if t == "north"@ {
        Some(Direction::North)
    } else if t == "south"@ {
        Some(Direction::South)
    } else if t == "east"@ {
        Some(Direction::East)
    } else if t == "west"@ {
        Some(Direction::West)
    } else {
        None
    }
}

/// A parse error of the grammar: `true` marks an unknown direction name
/// (with the offending prefix), `false` a name table without an id left
/// (with the name that could not be registered).
pub open spec fn sp_is_dir_error(e: (bool, Seq<char>)) -> bool {
    e.0
}

/// Parse the tokens of one line, from `p` up to the line end `j`. The first
/// token names the line's colony, registered in the table if new; each
/// later token carrying `=` adds one edge from the line's colony, and its
/// prefix must name a direction; other tokens are ignored.
pub open spec fn sp_parse_tokens(
    names: Seq<Seq<char>>,
    edges: Seq<(int, Direction, Seq<char>)>,
    s: Seq<char>,
    p: int,
    j: int,
    first: bool,
    src_id: int,
) -> Result<(Seq<Seq<char>>, Seq<(int, Direction, Seq<char>)>), (bool, Seq<char>)>
    decreases j - p,
    when 0 <= p <= j <= s.len()
    via sp_parse_tokens_dec
{
    let q = sp_skip_ws(s, p, j);
    if q >= j {
        Ok((names, edges))
    } else {
        let te = sp_token_end(s, q, j);
        let tok = s.subrange(q, te);
        if first {
            if sp_find_name(names, tok, 0) is Some {
                sp_parse_tokens(names, edges, s, te, j, false,
                    sp_find_name(names, tok, 0)->Some_0)
            } else if names.len() >= u32::MAX {
                Err((false, tok))
            } else {
                sp_parse_tokens(names.push(tok), edges, s, te, j, false, names.len() as int)
            }
        } else {
            if sp_find_eq(tok, 0) is Some {
                let eq = sp_find_eq(tok, 0)->Some_0;
                if sp_dir_of(tok.subrange(0, eq)) is Some {
                    sp_parse_tokens(names, edges.push((src_id,
                        sp_dir_of(tok.subrange(0, eq))->Some_0,
                        tok.subrange(eq + 1, tok.len() as int))), s, te, j, false, src_id)
                } else {
                    Err((true, tok.subrange(0, eq)))
                }
            } else {
                sp_parse_tokens(names, edges, s, te, j, false, src_id)
            }
        }
    }
}

#[via_fn]
proof fn sp_parse_tokens_dec(
    names: Seq<Seq<char>>,
    edges: Seq<(int, Direction, Seq<char>)>,
    s: Seq<char>,
    p: int,
    j: int,
    first: bool,
    src_id: int,
) {
    lemma_skip_ws(s, p, j);
    let q = sp_skip_ws(s, p, j);
    if q < j {
        lemma_token_end(s, q, j);
    }
}

/// Parse the text line by line, folding every line's tokens into the name
/// table and the edge list.
pub open spec fn sp_parse_lines(
    names: Seq<Seq<char>>,
    edges: Seq<(int, Direction, Seq<char>)>,
    s: Seq<char>,
    i: int,
) -> Result<(Seq<Seq<char>>, Seq<(int, Direction, Seq<char>)>), (bool, Seq<char>)>
    decreases s.len() - i,
    when 0 <= i <= s.len()
    via sp_parse_lines_dec
{
    if i >= s.len() {
        Ok((names, edges))
    } else {
        let j = sp_line_end(s, i);
        match sp_parse_tokens(names, edges, s, i, j, true, 0) {
            Ok(st) => sp_parse_lines(st.0, st.1, s, if j < s.len() {
                j + 1
            } else {
                j
            }),
            Err(e) => Err(e),
        }
    }
}

#[via_fn]
proof fn sp_parse_lines_dec(
    names: Seq<Seq<char>>,
    edges: Seq<(int, Direction, Seq<char>)>,
    s: Seq<char>,
    i: int,
) {
    lemma_line_end(s, i);
}

/// The whole first pass over the text, from an empty table.
pub open spec fn sp_parse(s: Seq<char>) -> Result<
    (Seq<Seq<char>>, Seq<(int, Direction, Seq<char>)>),
    (bool, Seq<char>),
> {
    sp_parse_lines(Seq::empty(), Seq::empty(), s, 0)
}

/// The second pass: every edge destination never seen as a line's colony is
/// registered at the end of the table, in edge order.
pub open spec fn sp_register_dsts(
    names: Seq<Seq<char>>,
    edges: Seq<(int, Direction, Seq<char>)>,
    k: int,
) -> Result<Seq<Seq<char>>, (bool, Seq<char>)>
    decreases edges.len() - k,
    when 0 <= k <= edges.len()
{
    if k >= edges.len() {
        Ok(names)
    } else if sp_find_name(names, edges[k].2, 0) is Some {
        sp_register_dsts(names, edges, k + 1)
    } else if names.len() >= u32::MAX {
        Err((false, edges[k].2))
    } else {
        sp_register_dsts(names.push(edges[k].2), edges, k + 1)
    }
}

/// Where the exit of colony `i` in direction `d` points after the first `k`
/// edges are applied: the destination id of the last such edge, or the
/// sentinel when no edge sets it.
pub open spec fn sp_edge_dst(
    names: Seq<Seq<char>>,
    edges: Seq<(int, Direction, Seq<char>)>,
    k: int,
    i: int,
    d: int,
) -> u32
    decreases k,
    when 0 <= k <= edges.len()
{
    if k <= 0 {
        INVALID_NODE
    } else if edges[k - 1].0 == i && edges[k - 1].1.index_spec() == d && sp_find_name(names,
        edges[k - 1].2, 0) is Some {
        sp_find_name(names, edges[k - 1].2, 0)->Some_0 as u32
    } else {
        sp_edge_dst(names, edges, k - 1, i, d)
    }
}

proof fn lemma_line_end(s: Seq<char>, j: int)
    requires
        0 <= j <= s.len(),
    ensures
        j <= sp_line_end(s, j) <= s.len(),
        forall|x: int| j <= x < sp_line_end(s, j) ==> s[x] != '\n',
        sp_line_end(s, j) < s.len() ==> s[sp_line_end(s, j)] == '\n',
    decreases s.len() - j,
{
    if !(j >= s.len() || s[j] == '\n') {
        lemma_line_end(s, j + 1);
    }
}

proof fn lemma_line_end_unique(s: Seq<char>, j: int, r: int)
    requires
        0 <= j <= r <= s.len(),
        forall|x: int| j <= x < r ==> s[x] != '\n',
        r < s.len() ==> s[r] == '\n',
    ensures
        sp_line_end(s, j) == r,
    decreases r - j,
{
    if j < r {
        assert(s[j] != '\n');
        lemma_line_end_unique(s, j + 1, r);
    }
}

proof fn lemma_skip_ws(s: Seq<char>, p: int, end: int)
    requires
        0 <= p <= end <= s.len(),
    ensures
        p <= sp_skip_ws(s, p, end) <= end,
        sp_skip_ws(s, p, end) < end ==> !is_ws(s[sp_skip_ws(s, p, end)]),
        forall|x: int| p <= x < sp_skip_ws(s, p, end) ==> is_ws(s[x]),
    decreases end - p,
{
    if !(p >= end || !is_ws(s[p])) {
        lemma_skip_ws(s, p + 1, end);
    }
}

proof fn lemma_skip_ws_unique(s: Seq<char>, p: int, end: int, r: int)
    requires
        0 <= p <= r <= end <= s.len(),
        forall|x: int| p <= x < r ==> is_ws(s[x]),
        r < end ==> !is_ws(s[r]),
    ensures
        sp_skip_ws(s, p, end) == r,
    decreases r - p,
{
    if p < r {
        assert(is_ws(s[p]));
        lemma_skip_ws_unique(s, p + 1, end, r);
    }
}

proof fn lemma_token_end(s: Seq<char>, p: int, end: int)
    requires
        0 <= p <= end <= s.len(),
    ensures
        p <= sp_token_end(s, p, end) <= end,
        p < end && !is_ws(s[p]) ==> sp_token_end(s, p, end) > p,
    decreases end - p,
{
    if !(p >= end || is_ws(s[p])) {
        lemma_token_end(s, p + 1, end);
    }
}

proof fn lemma_token_end_unique(s: Seq<char>, p: int, end: int, r: int)
    requires
        0 <= p <= r <= end <= s.len(),
        forall|x: int| p <= x < r ==> !is_ws(s[x]),
        r < end ==> is_ws(s[r]),
    ensures
        sp_token_end(s, p, end) == r,
    decreases r - p,
{
    if p < r {
        assert(!is_ws(s[p]));
        lemma_token_end_unique(s, p + 1, end, r);
    }
}

/// What `sp_dir_of` answers, against the four direction names.
proof fn lemma_dir_of(t: Seq<char>)
    ensures
        forall|d: Direction| t == d.name_spec() ==> sp_dir_of(t) == Some(d),
        (forall|d: Direction| t != d.name_spec()) ==> sp_dir_of(t) is None,
{
    reveal_strlit("north");
    reveal_strlit("south");
    reveal_strlit("east");
    reveal_strlit("west");
    assert("north"@[0] == 'n' && "south"@[0] == 's' && "west"@[0] == 'w'
        && "east"@[0] == 'e');
    assert("north"@.len() == 5 && "south"@.len() == 5 && "east"@.len() == 4
        && "west"@.len() == 4);
    assert(Direction::North.name_spec() == "north"@);
    assert(Direction::South.name_spec() == "south"@);
    assert(Direction::East.name_spec() == "east"@);
    assert(Direction::West.name_spec() == "west"@);
    assert forall|d: Direction| t == d.name_spec() implies sp_dir_of(t) == Some(d) by {
        match d {
            Direction::North => {},
            Direction::South => {},
            Direction::East => {},
            Direction::West => {},
        }
    }
    if forall|d: Direction| t != d.name_spec() {
        assert(t != Direction::North.name_spec());
        assert(t != Direction::South.name_spec());
        assert(t != Direction::East.name_spec());
        assert(t != Direction::West.name_spec());
        assert(sp_dir_of(t) is None);
    }
}

/// Index of the first name equal to `tok`, if any.
fn find_name(names: &Vec<String>, tok: &str) -> (r: Option<u32>)
    requires
        names@.len() <= u32::MAX,
    ensures
        match r {
            Some(i) => i < names@.len() && names@[i as int]@ == tok@
                && sp_find_name(views_of(names@), tok@, 0) == Some(i as int),
            None => !has_name(names@, tok@)
                && sp_find_name(views_of(names@), tok@, 0) is None,
        },
{
    let n = names.len();
    let mut i: usize = 0;
    while i < n
        invariant
            i <= n,
            n == names@.len(),
            n <= u32::MAX,
            forall|k: int| 0 <= k < i ==> (#[trigger] names@[k])@ != tok@,
            sp_find_name(views_of(names@), tok@, 0)
                == sp_find_name(views_of(names@), tok@, i as int),
        decreases n - i,
    {
        if str_eq(names[i].as_str(), tok) {
            proof {
                assert(views_of(names@)[i as int] == tok@);
            }
            return Some(i as u32);
        }
        proof {
            assert(views_of(names@)[i as int] != tok@);
        }
        i = i + 1;
    }
    None
}

/// Index of `tok` in the name table, registering it first if it is new.
/// Fails only when the table has no id left to give out.
fn intern_name(names: &mut Vec<String>, tok: &str) -> (r: Result<u32, ParseError>)
    requires
        old(names)@.len() <= u32::MAX,
    ensures
        match r {
            Ok(i) => {
                &&& final(names)@.len() <= u32::MAX
                &&& old(names)@.len() <= final(names)@.len()
                &&& i < final(names)@.len()
                &&& final(names)@[i as int]@ == tok@
                &&& forall|k: int| 0 <= k < old(names)@.len()
                    ==> (#[trigger] final(names)@[k]) == old(names)@[k]
                &&& if sp_find_name(views_of(old(names)@), tok@, 0) is Some {
                    final(names)@ == old(names)@
                        && i == sp_find_name(views_of(old(names)@), tok@, 0)->Some_0
                } else {
                    &&& old(names)@.len() < u32::MAX
                    &&& !has_name(old(names)@, tok@)
                    &&& i == old(names)@.len()
                    &&& views_of(final(names)@) == views_of(old(names)@).push(tok@)
                }
            },
            Err(e) => {
                &&& final(names)@ == old(names)@
                &&& e matches ParseError::InvalidLine(t) && t@ == tok@
                &&& sp_find_name(views_of(old(names)@), tok@, 0) is None
                &&& old(names)@.len() >= u32::MAX
            },
        },
{
    match find_name(names, tok) {
        Some(i) => Ok(i),
        None => {
            if names.len() == u32::MAX as usize {
                return Err(ParseError::InvalidLine(tok.to_owned()));
            }
            let i = names.len();
            names.push(tok.to_owned());
            proof {
                assert(views_of(names@) =~= views_of(old(names)@).push(tok@));
            }
            Ok(i as u32)
        },
    }
}

/// Position of the first `=` in `tok`, if any.
fn find_eq(tok: &str) -> (r: Option<usize>)
    ensures
        match r {
            Some(e) => e < tok@.len() && tok@[e as int] == '='
                && sp_find_eq(tok@, 0) == Some(e as int),
            None => sp_find_eq(tok@, 0) is None,
        },
{
    let n = tok.unicode_len();
    let mut i: usize = 0;
    while i < n
        invariant
            i <= n,
            n == tok@.len(),
            sp_find_eq(tok@, 0) == sp_find_eq(tok@, i as int),
        decreases n - i,
    {
        if tok.get_char(i) == '=' {
            return Some(i);
        }
        i = i + 1;
    }
    None
}

/// Parse a world description: one colony per line, the colony's name first,
/// then `direction=destination` tokens for its exits. Destinations that
/// never open a line of their own still become colonies, registered after
/// all lines are read. Tokens without `=` after the name are ignored; an
/// unknown direction name is an error, as is a name table that outgrows the
/// 32-bit id space.
///
/// The result is pinned to the grammar: the name table equals the names the
/// two passes of `sp_parse` and `sp_register_dsts` draw from the text, each
/// colony `i` carries name `i` and starts alive, and each exit holds the
/// destination of the last edge written for it. Parsing fails exactly when
/// the grammar finds a bad direction token or runs out of ids, with the
/// offending text in the error.
pub fn parse_world_from_str(src: &str) -> (r: Result<(Vec<String>, Vec<Node>), ParseError>)
    ensures
        match r {
            Ok(p) => {
                &&& sp_parse(src@) is Ok
                &&& sp_register_dsts(sp_parse(src@)->Ok_0.0, sp_parse(src@)->Ok_0.1, 0) is Ok
                &&& views_of(p.0@) == sp_register_dsts(sp_parse(src@)->Ok_0.0,
                    sp_parse(src@)->Ok_0.1, 0)->Ok_0
                &&& forall|i: int, d: int| 0 <= i < p.1@.len() && 0 <= d < 4
                    ==> (#[trigger] p.1@[i].neighbors@[d]) == sp_edge_dst(views_of(p.0@),
                        sp_parse(src@)->Ok_0.1, sp_parse(src@)->Ok_0.1.len() as int, i, d)
                &&& p.1@.len() == p.0@.len()
                &&& (World { names: p.0, nodes: p.1 }).wf()
                &&& forall|i: int| 0 <= i < p.1@.len()
                    ==> (#[trigger] p.1@[i]).name_idx == i && p.1@[i].alive
                &&& names_distinct(p.0@)
            },
            Err(e) => match e {
                ParseError::InvalidDirection(t) => sp_parse(src@) is Err
                    && sp_is_dir_error(sp_parse(src@)->Err_0)
                    && t@ == sp_parse(src@)->Err_0.1,
                ParseError::InvalidLine(t) => (sp_parse(src@) is Err
                    && !sp_is_dir_error(sp_parse(src@)->Err_0)
                    && t@ == sp_parse(src@)->Err_0.1) || (sp_parse(src@) is Ok
                    && sp_register_dsts(sp_parse(src@)->Ok_0.0, sp_parse(src@)->Ok_0.1,
                        0) is Err
                    && t@ == sp_register_dsts(sp_parse(src@)->Ok_0.0,
                        sp_parse(src@)->Ok_0.1, 0)->Err_0.1),
                ParseError::IoError(_) => false,
            },
        },
{
    let n = src.unicode_len();
    let mut names: Vec<String> = Vec::new();
    let mut edges: Vec<(u32, Direction, String)> = Vec::new();
    proof {
        assert(views_of(names@) =~= Seq::<Seq<char>>::empty());
        assert(edge_models(edges@) =~= Seq::<(int, Direction, Seq<char>)>::empty());
    }

    let mut i: usize = 0;
    while i < n
        invariant
            i <= n,
            n == src@.len(),
            names@.len() <= u32::MAX,
            names_distinct(names@),
            n == 0 ==> names@.len() == 0 && edges@.len() == 0,
            forall|k: int| 0 <= k < edges@.len()
                ==> (#[trigger] edges@[k]).0 < names@.len(),
            sp_parse_lines(views_of(names@), edge_models(edges@), src@, i as int)
                == sp_parse(src@),
        decreases n - i,
    {
        let ghost line_names = views_of(names@);
        let ghost line_edges = edge_models(edges@);
        let ghost i_line = i as int;

        // find the end of the line
        let mut j: usize = i;
        while j < n && src.get_char(j) != '\n'
            invariant
                i <= j <= n,
                n == src@.len(),
                forall|x: int| i <= x < j ==> src@[x] != '\n',
            decreases n - j,
        {
            j = j + 1;
        }
        proof {
            lemma_line_end_unique(src@, i as int, j as int);
        }

        // walk the line's whitespace-separated tokens
        let mut p: usize = i;
        let mut first_token = true;
        let mut src_id: u32 = 0;
        while p < j
            invariant
                p <= j <= n,
                0 <= i_line <= p,
                j as int == sp_line_end(src@, i_line),
                sp_parse_lines(line_names, line_edges, src@, i_line) == sp_parse(src@),
                n == src@.len(),
                names@.len() <= u32::MAX,
                names_distinct(names@),
                forall|k: int| 0 <= k < edges@.len()
                    ==> (#[trigger] edges@[k]).0 < names@.len(),
                !first_token ==> src_id < names@.len(),
                sp_parse_tokens(views_of(names@), edge_models(edges@), src@, p as int,
                    j as int, first_token, src_id as int)
                    == sp_parse_tokens(line_names, line_edges, src@, i_line, j as int,
                        true, 0),
            ensures
                sp_parse_tokens(line_names, line_edges, src@, i_line, j as int, true, 0)
                    == Ok::<_, (bool, Seq<char>)>((views_of(names@), edge_models(edges@))),
            decreases j - p,
        {
            let ghost p0 = p as int;
            let ghost pre_v = views_of(names@);
            let ghost pre_e = edge_models(edges@);
            let ghost first_pre = first_token;
            let ghost src_pre = src_id as int;
            while p < j && is_ws_char(src.get_char(p))
                invariant
                    p0 <= p as int && p <= j <= n,
                    n == src@.len(),
                    forall|x: int| p0 <= x < p ==> is_ws(src@[x]),
                decreases j - p,
            {
                p = p + 1;
            }
            proof {
                lemma_skip_ws_unique(src@, p0, j as int, p as int);
            }
            if p >= j {
                proof {
                    assert(sp_parse_tokens(views_of(names@), edge_models(edges@), src@,
                        p0, j as int, first_token, src_id as int)
                        == Ok::<_, (bool, Seq<char>)>((views_of(names@),
                            edge_models(edges@))));
                }
                break;
            }
            let start = p;
            while p < j && !is_ws_char(src.get_char(p))
                invariant
                    start <= p <= j <= n,
                    n == src@.len(),
                    p == start ==> p < j && !is_ws(src@[start as int]),
                    forall|x: int| start <= x < p ==> !is_ws(src@[x]),
                decreases j - p,
            {
                p = p + 1;
            }
            let ghost q0 = start as int;
            let ghost te0 = p as int;
            proof {
                assert(p > start);
                lemma_token_end_unique(src@, start as int, j as int, p as int);
                assert(sp_skip_ws(src@, p0, j as int) == q0);
                assert(sp_token_end(src@, q0, j as int) == te0);
            }
            let tok = src.substring_char(start, p);
            let ghost sp_tok = src@.subrange(start as int, p as int);
            proof {
                assert(tok@ == sp_tok);
            }
            if first_token {
                let ghost pre_names = names@;
                match intern_name(&mut names, tok) {
                    Ok(id) => {
                        src_id = id;
                    },
                    Err(e) => {
                        proof {
                            assert(sp_find_name(pre_v, sp_tok, 0) is None);
                            assert(pre_v.len() >= u32::MAX);
                            assert(sp_parse_tokens(pre_v, pre_e, src@, p0, j as int,
                                first_pre, src_pre)
                                == Err::<(Seq<Seq<char>>, Seq<(int, Direction, Seq<char>)>),
                                    _>((false, sp_tok)));
                            assert(sp_parse(src@) == Err::<(Seq<Seq<char>>, Seq<(int,
                                Direction, Seq<char>)>), _>((false, sp_tok)));
                        }
                        return Err(e);
                    },
                }
                proof {
                    assert forall|x: int, y: int| 0 <= x < y < names@.len()
                        implies (#[trigger] names@[x])@ != (#[trigger] names@[y])@ by {
                        if y >= pre_names.len() {
                            assert(names@[x] == pre_names[x]);
                            assert(!has_name(pre_names, names@[y]@));
                        }
                    }
                    if sp_find_name(pre_v, sp_tok, 0) is Some {
                        assert(views_of(names@) =~= pre_v);
                        assert(sp_parse_tokens(pre_v, pre_e, src@, p0, j as int,
                            first_pre, src_pre)
                            == sp_parse_tokens(views_of(names@), edge_models(edges@),
                                src@, p as int, j as int, false, src_id as int));
                    } else {
                        assert(views_of(names@) == pre_v.push(sp_tok));
                        assert(src_id as int == pre_v.len());
                        assert(sp_parse_tokens(pre_v, pre_e, src@, p0, j as int,
                            first_pre, src_pre)
                            == sp_parse_tokens(views_of(names@), edge_models(edges@),
                                src@, p as int, j as int, false, src_id as int));
                    }
                }
                first_token = false;
            } else {
                match find_eq(tok) {
                    Some(eq) => {
                        let dir_s = tok.substring_char(0, eq);
                        let dst_s = tok.substring_char(eq + 1, tok.unicode_len());
                        proof {
                            assert(dir_s@ == sp_tok.subrange(0, eq as int));
                            assert(dst_s@ == sp_tok.subrange(eq + 1, sp_tok.len() as int));
                            lemma_dir_of(dir_s@);
                        }
                        match parse_direction(dir_s) {
                            Ok(dir) => {
                                let ghost pre_edges = edges@;
                                edges.push((src_id, dir, dst_s.to_owned()));
                                proof {
                                    assert(sp_dir_of(sp_tok.subrange(0, eq as int))
                                        == Some(dir));
                                    assert(edge_models(edges@) =~= pre_e.push((
                                        src_pre, dir, sp_tok.subrange(eq + 1,
                                        sp_tok.len() as int))));
                                    assert(sp_parse_tokens(pre_v, pre_e, src@, p0,
                                        j as int, first_pre, src_pre)
                                        == sp_parse_tokens(views_of(names@),
                                            edge_models(edges@), src@, p as int, j as int,
                                            false, src_id as int));
                                }
                            },
                            Err(e) => {
                                proof {
                                    assert(sp_dir_of(sp_tok.subrange(0, eq as int))
                                        is None);
                                    assert(sp_parse_tokens(pre_v, pre_e, src@, p0,
                                        j as int, first_pre, src_pre)
                                        == Err::<(Seq<Seq<char>>, Seq<(int, Direction,
                                            Seq<char>)>), _>((true,
                                            sp_tok.subrange(0, eq as int))));
                                    assert(sp_parse(src@) == Err::<(Seq<Seq<char>>,
                                        Seq<(int, Direction, Seq<char>)>), _>((true,
                                        sp_tok.subrange(0, eq as int))));
                                }
                                return Err(e);
                            },
                        }
                    },
                    None => {
                        proof {
                            assert(sp_find_eq(sp_tok, 0) is None);
                            assert(sp_parse_tokens(pre_v, pre_e, src@, p0, j as int,
                                first_pre, src_pre)
                                == sp_parse_tokens(views_of(names@), edge_models(edges@),
                                    src@, p as int, j as int, false, src_id as int));
                        }
                    },
                }
            }
        }
        proof {
            assert(sp_parse_lines(line_names, line_edges, src@, i_line)
                == sp_parse_lines(views_of(names@), edge_models(edges@), src@,
                    if (j as int) < src@.len() {
                        j + 1
                    } else {
                        j as int
                    }));
        }
        i = if j < n {
            j + 1
        } else {
            j
        };
    }
    let ghost pass1_names = views_of(names@);
    let ghost pass1_edges = edge_models(edges@);
    proof {
        assert(sp_parse(src@) == Ok::<_, (bool, Seq<char>)>((pass1_names, pass1_edges)));
    }

    // register destinations that were never seen as sources
    let edge_count = edges.len();
    let mut e: usize = 0;
    while e < edge_count
        invariant
            e <= edge_count,
            edge_count == edges@.len(),
            names@.len() <= u32::MAX,
            names_distinct(names@),
            src@.len() == 0 ==> names@.len() == 0,
            sp_parse(src@) == Ok::<_, (bool, Seq<char>)>((pass1_names, pass1_edges)),
            pass1_edges == edge_models(edges@),
            forall|k: int| 0 <= k < edges@.len()
                ==> (#[trigger] edges@[k]).0 < names@.len(),
            forall|k: int| 0 <= k < e ==> has_name(names@, (#[trigger] edges@[k]).2@),
            sp_register_dsts(views_of(names@), pass1_edges, e as int)
                == sp_register_dsts(pass1_names, pass1_edges, 0),
        decreases edge_count - e,
    {
        let ghost pre_names = names@;
        proof {
            assert(pass1_edges[e as int].2 == edges@[e as int].2@);
        }
        match intern_name(&mut names, edges[e].2.as_str()) {
            Ok(_) => {},
            Err(e2) => {
                proof {
                    assert(sp_register_dsts(views_of(pre_names), pass1_edges, e as int)
                        == Err::<Seq<Seq<char>>, _>((false, pass1_edges[e as int].2)));
                    assert(views_of(names@) =~= views_of(pre_names));
                    assert(sp_register_dsts(pass1_names, pass1_edges, 0)
                        == Err::<Seq<Seq<char>>, _>((false, pass1_edges[e as int].2)));
                    assert(sp_parse(src@) is Ok);
                    assert(sp_parse(src@)->Ok_0.0 == pass1_names);
                    assert(sp_parse(src@)->Ok_0.1 == pass1_edges);
                }
                return Err(e2);
            },
        }
        proof {
            assert forall|k: int| 0 <= k < e + 1
                implies has_name(names@, (#[trigger] edges@[k]).2@) by {
                if k < e {
                    let i0 = choose|i2: int| 0 <= i2 < pre_names.len()
                        && pre_names[i2]@ == edges@[k].2@;
                    assert(names@[i0]@ == edges@[k].2@);
                }
            }
            assert forall|x: int, y: int| 0 <= x < y < names@.len()
                implies (#[trigger] names@[x])@ != (#[trigger] names@[y])@ by {
                if y >= pre_names.len() {
                    assert(names@[x] == pre_names[x]);
                    assert(!has_name(pre_names, names@[y]@));
                }
            }
        }
        e = e + 1;
    }
    let ghost full_names = views_of(names@);
    proof {
        assert(sp_register_dsts(pass1_names, pass1_edges, 0)
            == Ok::<Seq<Seq<char>>, (bool, Seq<char>)>(full_names));
    }

    // build the nodes, one per name, in name order
    let name_count = names.len();
    let mut nodes: Vec<Node> = Vec::new();
    let mut b: usize = 0;
    while b < name_count
        invariant
            b <= name_count,
            name_count == names@.len(),
            name_count <= u32::MAX,
            names_distinct(names@),
            nodes@.len() == b,
            forall|k: int| 0 <= k < b ==> {
                let nd = #[trigger] nodes@[k];
                &&& nd.name_idx == k
                &&& nd.alive
                &&& forall|d: int| 0 <= d < 4 ==> nd.neighbors@[d] == INVALID_NODE
            },
        decreases name_count - b,
    {
        nodes.push(Node::new(b as u32));
        b = b + 1;
    }

    // resolve the edges
    let mut e2: usize = 0;
    while e2 < edge_count
        invariant
            e2 <= edge_count,
            edge_count == edges@.len(),
            name_count == names@.len(),
            name_count <= u32::MAX,
            names_distinct(names@),
            full_names == views_of(names@),
            pass1_edges == edge_models(edges@),
            nodes@.len() == name_count,
            forall|k: int| 0 <= k < edges@.len()
                ==> (#[trigger] edges@[k]).0 < names@.len(),
            forall|k: int| 0 <= k < edges@.len()
                ==> has_name(names@, (#[trigger] edges@[k]).2@),
            forall|k: int| 0 <= k < nodes@.len() ==> {
                let nd = #[trigger] nodes@[k];
                &&& nd.name_idx == k
                &&& nd.alive
                &&& forall|d: int| 0 <= d < 4
                    ==> nd.neighbors@[d] == INVALID_NODE || nd.neighbors@[d] < nodes@.len()
            },
            forall|i3: int, d: int| 0 <= i3 < nodes@.len() && 0 <= d < 4
                ==> (#[trigger] nodes@[i3].neighbors@[d]) == sp_edge_dst(full_names,
                    pass1_edges, e2 as int, i3, d),
        decreases edge_count - e2,
    {
        let ghost pre_nodes = nodes@;
        let src_idx = edges[e2].0 as usize;
        let dir = edges[e2].1;
        proof {
            assert(pass1_edges[e2 as int] == (edges@[e2 as int].0 as int,
                edges@[e2 as int].1, edges@[e2 as int].2@));
        }
        match find_name(&names, edges[e2].2.as_str()) {
            Some(dst) => {
                let mut node = nodes[src_idx];
                node.set_neighbor(dir.index(), dst);
                proof {
                    assert(dst < nodes@.len());
                }
                nodes[src_idx] = node;
                proof {
                    assert forall|i3: int, d: int| 0 <= i3 < nodes@.len() && 0 <= d < 4
                        implies (#[trigger] nodes@[i3].neighbors@[d])
                            == sp_edge_dst(full_names, pass1_edges, e2 + 1, i3, d) by {
                        if i3 == src_idx as int && d == dir.index_spec() {
                            assert(nodes@[i3].neighbors@[d] == dst);
                        } else {
                            if i3 == src_idx as int {
                                assert(nodes@[i3].neighbors@[d]
                                    == pre_nodes[i3].neighbors@[d]);
                            } else {
                                assert(nodes@[i3] == pre_nodes[i3]);
                            }
                        }
                    }
                }
            },
            None => {
                // every destination was registered above
                proof {
                    assert(false);
                }
            },
        }
        e2 = e2 + 1;
    }

    proof {
        assert(views_of(names@) == sp_register_dsts(sp_parse(src@)->Ok_0.0,
            sp_parse(src@)->Ok_0.1, 0)->Ok_0);
    }
    Ok((names, nodes))
}

/// Parses a world and wraps it in the world type; the result is well-formed
/// and pinned to the same grammar as `parse_world_from_str`.
pub fn parse_world(src: &str) -> (r: Result<World, ParseError>)
    ensures
        match r {
            Ok(w) => {
                &&& sp_parse(src@) is Ok
                &&& sp_register_dsts(sp_parse(src@)->Ok_0.0, sp_parse(src@)->Ok_0.1, 0) is Ok
                &&& views_of(w.names@) == sp_register_dsts(sp_parse(src@)->Ok_0.0,
                    sp_parse(src@)->Ok_0.1, 0)->Ok_0
                &&& forall|i: int, d: int| 0 <= i < w.nodes@.len() && 0 <= d < 4
                    ==> (#[trigger] w.nodes@[i].neighbors@[d]) == sp_edge_dst(
                        views_of(w.names@), sp_parse(src@)->Ok_0.1,
                        sp_parse(src@)->Ok_0.1.len() as int, i, d)
                &&& w.wf()
                &&& w.nodes@.len() == w.names@.len()
                &&& forall|i: int| 0 <= i < w.nodes@.len()
                    ==> (#[trigger] w.nodes@[i]).name_idx == i && w.nodes@[i].alive
                &&& names_distinct(w.names@)
            },
            Err(e) => match e {
                ParseError::InvalidDirection(t) => sp_parse(src@) is Err
                    && sp_is_dir_error(sp_parse(src@)->Err_0)
                    && t@ == sp_parse(src@)->Err_0.1,
                ParseError::InvalidLine(t) => (sp_parse(src@) is Err
                    && !sp_is_dir_error(sp_parse(src@)->Err_0)
                    && t@ == sp_parse(src@)->Err_0.1) || (sp_parse(src@) is Ok
                    && sp_register_dsts(sp_parse(src@)->Ok_0.0, sp_parse(src@)->Ok_0.1,
                        0) is Err
                    && t@ == sp_register_dsts(sp_parse(src@)->Ok_0.0,
                        sp_parse(src@)->Ok_0.1, 0)->Err_0.1),
                ParseError::IoError(_) => false,
            },
        },
{
    match parse_world_from_str(src) {
        Ok((names, nodes)) => Ok(World::new(names, nodes)),
        Err(e) => Err(e),
    }
}

} // verus!
