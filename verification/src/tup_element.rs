//! One argument of a `tup!` or `Tup!` invocation.
//!
//! Expression position (grammar B): `name [ : value_expr ]`, a bare name
//! standing for `name: name`. Type position (grammar A):
//! `name : type [ = default_expr | == default_rule_identifier ]`.

use vstd::prelude::*;
use crate::token::{
    Token, TokenKind, copy_range, punct_is, punct2_is, spec_punct_is, spec_punct2_is, token_wf,
    tokens_wf, is_ident_start, is_ident_continue,
};

verus! {

/// A valid identifier text.
pub open spec fn valid_ident(s: Seq<char>) -> bool {
    &&& s.len() > 0
    &&& is_ident_start(s[0])
    &&& forall|k: int| 0 < k < s.len() ==> is_ident_continue(#[trigger] s[k])
}

/// A parse failure, at a character position of the invocation text.
#[derive(Debug)]
pub struct ParseError {
    pub pos: usize,
}

/// The default descriptor of a type-position argument: none, an inline
/// expression not yet lowered to a rule item, or the identifier of a lowered
/// rule.
pub enum TupDefault {
    Absent,
    Unfinished { expr: Vec<char> },
    Finished { id: Vec<char> },
}

/// The mathematical shape of a `TupDefault`.
pub enum TupDefaultSpec {
    Absent,
    Unfinished { expr: Seq<char> },
    Finished { id: Seq<char> },
}

impl View for TupDefault {
    type V = TupDefaultSpec;

    open spec fn view(&self) -> TupDefaultSpec {
        match self {
            TupDefault::Absent => TupDefaultSpec::Absent,
            TupDefault::Unfinished { expr } => TupDefaultSpec::Unfinished { expr: expr@ },
            TupDefault::Finished { id } => TupDefaultSpec::Finished { id: id@ },
        }
    }
}

/// An expression-position argument.
pub struct TupElement {
    pub name: Vec<char>,
    pub name_pos: usize,
    pub value: Option<Vec<char>>,
}

/// The mathematical shape of a `TupElement`.
pub struct TupElementSpec {
    pub name: Seq<char>,
    pub value: Option<Seq<char>>,
}

impl View for TupElement {
    type V = TupElementSpec;

    open spec fn view(&self) -> TupElementSpec {
        TupElementSpec {
            name: self.name@,
            value: match self.value {
                Some(ref v) => Some(v@),
                None => None,
            },
        }
    }
}

/// A type-position argument.
pub struct TupType {
    pub name: Vec<char>,
    pub name_pos: usize,
    pub value: Vec<char>,
    pub default: TupDefault,
}

/// The mathematical shape of a `TupType`.
pub struct TupTypeSpec {
    pub name: Seq<char>,
    pub value: Seq<char>,
    pub default: TupDefaultSpec,
}

impl View for TupType {
    type V = TupTypeSpec;

    open spec fn view(&self) -> TupTypeSpec {
        TupTypeSpec { name: self.name@, value: self.value@, default: self.default@ }
    }
}


/// Where a balanced token run starting at `i` ends: tokens up to the first
/// top-level comma (or, when asked, a top-level `=` or `==`), brackets and
/// — in type position — angle brackets kept balanced. Nothing for an
/// unbalanced run.
pub open spec fn spec_scan_run(
    input: Seq<char>,
    toks: Seq<Token>,
    i: int,
    depth: int,
    angle: int,
    stop_at_eq: bool,
) -> Option<int>
    decreases toks.len() - i,
{
    if i < 0 {
        None
    } else if i >= toks.len() {
        if depth == 0 && angle == 0 {
            Some(i)
        } else {
            None
        }
    } else {
        let t = toks[i];
        if t.kind == TokenKind::Open {
            spec_scan_run(input, toks, i + 1, depth + 1, angle, stop_at_eq)
        } else if t.kind == TokenKind::Close {
            if depth == 0 {
                None
            } else {
                spec_scan_run(input, toks, i + 1, depth - 1, angle, stop_at_eq)
            }
        } else if depth == 0 {
            if spec_punct_is(input, t, ',') && angle == 0 {
                Some(i)
            } else if stop_at_eq && angle == 0 && (spec_punct_is(input, t, '=') || spec_punct2_is(
                input,
                t,
                '=',
                '=',
            )) {
                Some(i)
            } else if stop_at_eq && spec_punct_is(input, t, '<') {
                spec_scan_run(input, toks, i + 1, depth, angle + 1, stop_at_eq)
            } else if stop_at_eq && spec_punct_is(input, t, '>') {
                if angle == 0 {
                    None
                } else {
                    spec_scan_run(input, toks, i + 1, depth, angle - 1, stop_at_eq)
                }
            } else {
                spec_scan_run(input, toks, i + 1, depth, angle, stop_at_eq)
            }
        } else {
            spec_scan_run(input, toks, i + 1, depth, angle, stop_at_eq)
        }
    }
}

/// The source text covered by the token range `[from, to)`.
pub open spec fn spec_range_text(input: Seq<char>, toks: Seq<Token>, from: int, to: int) -> Seq<
    char,
> {
    input.subrange(toks[from].start as int, toks[to - 1].end as int)
}

/// The expression-position argument starting at token `pos`:
/// `name [ : value_expr ]`, together with the position after it. Nothing
/// when no such argument stands there.
pub open spec fn spec_parse_element(input: Seq<char>, toks: Seq<Token>, pos: int) -> Option<
    (TupElementSpec, int),
> {
    if pos < 0 || pos >= toks.len() {
        None
    } else {
        let t = toks[pos];
        if t.kind != TokenKind::Ident {
            None
        } else {
            let name = input.subrange(t.start as int, t.end as int);
            if pos + 1 < toks.len() && spec_punct_is(input, toks[pos + 1], ':') {
                match spec_scan_run(input, toks, pos + 2, 0, 0, false) {
                    None => None,
                    Some(e) => if e <= pos + 2 || e > toks.len() {
                        None
                    } else {
                        Some(
                            (
                                TupElementSpec {
                                    name,
                                    value: Some(spec_range_text(input, toks, pos + 2, e)),
                                },
                                e,
                            ),
                        )
                    },
                }
            } else {
                Some((TupElementSpec { name, value: None }, pos + 1))
            }
        }
    }
}

/// The written-out form of one type-position argument: `name: type`, with
/// its default marker where one is set.
pub open spec fn spec_type_tokens(e: TupTypeSpec) -> Seq<char> {
    e.name + ": "@ + e.value + match e.default {
        TupDefaultSpec::Absent => Seq::<char>::empty(),
        TupDefaultSpec::Unfinished { expr } => " = "@ + expr,
        TupDefaultSpec::Finished { id } => " == "@ + id,
    }
}

/// The type-position argument starting at token `pos`:
/// `name : type [ = default_expr | == default_rule_identifier ]`, together
/// with the position after it. Nothing when no such argument stands there.
pub open spec fn spec_parse_type(input: Seq<char>, toks: Seq<Token>, pos: int) -> Option<
    (TupTypeSpec, int),
> {
    if pos < 0 || pos >= toks.len() {
        None
    } else {
        let t = toks[pos];
        if t.kind != TokenKind::Ident {
            None
        } else if !(pos + 1 < toks.len() && spec_punct_is(input, toks[pos + 1], ':')) {
            None
        } else {
            let name = input.subrange(t.start as int, t.end as int);
            match spec_scan_run(input, toks, pos + 2, 0, 0, true) {
                None => None,
                Some(te) => if te <= pos + 2 || te > toks.len() {
                    None
                } else {
                    let value = spec_range_text(input, toks, pos + 2, te);
                    if te >= toks.len() {
                        Some((TupTypeSpec { name, value, default: TupDefaultSpec::Absent }, te))
                    } else if spec_punct2_is(input, toks[te], '=', '=') {
                        if te + 1 >= toks.len() || toks[te + 1].kind != TokenKind::Ident {
                            None
                        } else {
                            Some(
                                (
                                    TupTypeSpec {
                                        name,
                                        value,
                                        default: TupDefaultSpec::Finished {
                                            id: input.subrange(
                                                toks[te + 1].start as int,
                                                toks[te + 1].end as int,
                                            ),
                                        },
                                    },
                                    te + 2,
                                ),
                            )
                        }
                    } else if spec_punct_is(input, toks[te], '=') {
                        match spec_scan_run(input, toks, te + 1, 0, 0, false) {
                            None => None,
                            Some(ee) => if ee <= te + 1 || ee > toks.len() {
                                None
                            } else {
                                Some(
                                    (
                                        TupTypeSpec {
                                            name,
                                            value,
                                            default: TupDefaultSpec::Unfinished {
                                                expr: spec_range_text(input, toks, te + 1, ee),
                                            },
                                        },
                                        ee,
                                    ),
                                )
                            },
                        }
                    } else {
                        Some((TupTypeSpec { name, value, default: TupDefaultSpec::Absent }, te))
                    }
                },
            }
        }
    }
}

/// Consumes a balanced token run: tokens up to the first top-level comma
/// (or, when asked, a top-level `=` or `==`), brackets kept balanced.
/// Returns the end of the run, exactly as `spec_scan_run` gives it.
fn scan_run(input: &Vec<char>, toks: &Vec<Token>, from: usize, stop_at_eq: bool) -> (r: Result<
    usize,
    ParseError,
>)
    requires
        tokens_wf(toks@, input@),
        from <= toks@.len(),
    ensures
        match r {
            Ok(p) => from <= p <= toks@.len() && spec_scan_run(
                input@,
                toks@,
                from as int,
                0,
                0,
                stop_at_eq,
            ) == Some(p as int),
            Err(_) => spec_scan_run(input@, toks@, from as int, 0, 0, stop_at_eq) is None,
        },
{
    let n = toks.len();
    let mut i = from;
    let mut depth: usize = 0;
    let mut angle: usize = 0;
    while i < n
        invariant
            from <= i <= n,
            n == toks@.len(),
            tokens_wf(toks@, input@),
            depth <= i - from,
            angle <= i - from,
            spec_scan_run(input@, toks@, from as int, 0, 0, stop_at_eq) == spec_scan_run(
                input@,
                toks@,
                i as int,
                depth as int,
                angle as int,
                stop_at_eq,
            ),
        decreases n - i,
    {
        let t = toks[i];
        proof {
            assert(token_wf(toks@[i as int], input@));
        }
        if matches!(t.kind, TokenKind::Open) {
            depth = depth + 1;
        } else if matches!(t.kind, TokenKind::Close) {
            if depth == 0 {
                return Err(ParseError { pos: t.start });
            }
            depth = depth - 1;
        } else if depth == 0 {
            if punct_is(input, &t, ',') && angle == 0 {
                return Ok(i);
            }
            if stop_at_eq && angle == 0 && (punct_is(input, &t, '=') || punct2_is(
                input,
                &t,
                '=',
                '=',
            )) {
                return Ok(i);
            }
            if stop_at_eq && punct_is(input, &t, '<') {
                angle = angle + 1;
            } else if stop_at_eq && punct_is(input, &t, '>') {
                if angle == 0 {
                    return Err(ParseError { pos: t.start });
                }
                angle = angle - 1;
            }
        }
        i = i + 1;
    }
    if depth == 0 && angle == 0 {
        Ok(i)
    } else {
        Err(ParseError { pos: input.len() })
    }
}

/// The source text covered by the token range `[from, to)`.
fn range_text(input: &Vec<char>, toks: &Vec<Token>, from: usize, to: usize) -> (r: Vec<char>)
    requires
        tokens_wf(toks@, input@),
        from < to <= toks@.len(),
    ensures
        r@ == spec_range_text(input@, toks@, from as int, to as int),
        r@.len() > 0,
{
    proof {
        assert(token_wf(toks@[from as int], input@));
        assert(token_wf(toks@[to - 1 as int], input@));
        if from < to - 1 {
            assert(toks@[from as int].end <= toks@[to - 1 as int].start);
        }
    }
    let start = toks[from].start;
    let end = toks[to - 1].end;
    copy_range(input, start, end)
}

impl TupElement {
    /// Parses one expression-position argument at token position `pos`:
    /// `name [ : value_expr ]`. The result is exactly what
    /// `spec_parse_element` gives: it succeeds precisely when such an
    /// argument stands there, the name is the identifier's text, and the
    /// value is the covered expression text exactly when a `:` follows.
    pub fn parse(input: &Vec<char>, toks: &Vec<Token>, pos: usize) -> (r: Result<
        (TupElement, usize),
        ParseError,
    >)
        requires
            tokens_wf(toks@, input@),
            pos <= toks@.len(),
        ensures
            (r is Ok) <==> spec_parse_element(input@, toks@, pos as int) is Some,
            match r {
                Ok((e, p)) => {
                    &&& spec_parse_element(input@, toks@, pos as int) == Some((e@, p as int))
                    &&& pos < p <= toks@.len()
                    &&& valid_ident(e.name@)
                    &&& e.name@ == input@.subrange(
                        toks@[pos as int].start as int,
                        toks@[pos as int].end as int,
                    )
                    &&& e.name_pos == toks@[pos as int].start
                    &&& e.value matches Some(v) ==> v@.len() > 0
                },
                Err(_) => true,
            },
    {
        let n = toks.len();
        if pos >= n {
            return Err(ParseError { pos: input.len() });
        }
        let t = toks[pos];
        proof {
            assert(token_wf(toks@[pos as int], input@));
        }
        if !matches!(t.kind, TokenKind::Ident) {
            return Err(ParseError { pos: t.start });
        }
        let name = copy_range(input, t.start, t.end);
        proof {
            assert(valid_ident(name@));
        }
        let mut p = pos + 1;
        if p < n {
            let c = toks[p];
            proof {
                assert(token_wf(toks@[p as int], input@));
            }
            if punct_is(input, &c, ':') {
                p = p + 1;
                let end = match scan_run(input, toks, p, false) {
                    Ok(e) => e,
                    Err(e) => {
                        return Err(e);
                    },
                };
                if end == p {
                    return Err(ParseError { pos: c.start });
                }
                let value = range_text(input, toks, p, end);
                let elem = TupElement { name, name_pos: t.start, value: Some(value) };
                proof {
                    assert(spec_parse_element(input@, toks@, pos as int) == Some(
                        (elem@, end as int),
                    ));
                }
                return Ok((elem, end));
            }
        }
        let elem = TupElement { name, name_pos: t.start, value: None };
        proof {
            assert(spec_parse_element(input@, toks@, pos as int) == Some((elem@, pos as int + 1)));
        }
        Ok((elem, pos + 1))
    }
}

impl TupType {
    /// Parses one type-position argument at token position `pos`:
    /// `name : type [ = default_expr | == default_rule_identifier ]`. The
    /// result is exactly what `spec_parse_type` gives: it succeeds
    /// precisely when such an argument stands there, the value is the
    /// covered type text, and the default descriptor is the variant the
    /// marker dictates, with its expression or identifier text.
    pub fn parse(input: &Vec<char>, toks: &Vec<Token>, pos: usize) -> (r: Result<
        (TupType, usize),
        ParseError,
    >)
        requires
            tokens_wf(toks@, input@),
            pos <= toks@.len(),
        ensures
            (r is Ok) <==> spec_parse_type(input@, toks@, pos as int) is Some,
            match r {
                Ok((e, p)) => {
                    &&& spec_parse_type(input@, toks@, pos as int) == Some((e@, p as int))
                    &&& pos < p <= toks@.len()
                    &&& valid_ident(e.name@)
                    &&& e.name@ == input@.subrange(
                        toks@[pos as int].start as int,
                        toks@[pos as int].end as int,
                    )
                    &&& e.name_pos == toks@[pos as int].start
                    &&& e.value@.len() > 0
                    &&& e.default@ matches TupDefaultSpec::Unfinished { expr } ==> expr.len() > 0
                    &&& e.default@ matches TupDefaultSpec::Finished { id } ==> valid_ident(id)
                },
                Err(_) => true,
            },
    {
        let n = toks.len();
        if pos >= n {
            return Err(ParseError { pos: input.len() });
        }
        let t = toks[pos];
        proof {
            assert(token_wf(toks@[pos as int], input@));
        }
        if !matches!(t.kind, TokenKind::Ident) {
            return Err(ParseError { pos: t.start });
        }
        let name = copy_range(input, t.start, t.end);
        proof {
            assert(valid_ident(name@));
        }
        let mut p = pos + 1;
        if p >= n {
            return Err(ParseError { pos: input.len() });
        }
        let c = toks[p];
        proof {
            assert(token_wf(toks@[p as int], input@));
        }
        if !punct_is(input, &c, ':') {
            return Err(ParseError { pos: c.start });
        }
        p = p + 1;
        let type_end = match scan_run(input, toks, p, true) {
            Ok(e) => e,
            Err(e) => {
                return Err(e);
            },
        };
        if type_end == p {
            return Err(ParseError { pos: c.start });
        }
        let value = range_text(input, toks, p, type_end);
        if type_end >= n {
            let elem = TupType { name, name_pos: t.start, value, default: TupDefault::Absent };
            proof {
                assert(spec_parse_type(input@, toks@, pos as int) == Some(
                    (elem@, type_end as int),
                ));
            }
            return Ok((elem, type_end));
        }
        let marker = toks[type_end];
        proof {
            assert(token_wf(toks@[type_end as int], input@));
        }
        if punct2_is(input, &marker, '=', '=') {
            // An already-lowered default, named by its rule identifier.
            let q = type_end + 1;
            if q >= n {
                return Err(ParseError { pos: input.len() });
            }
            let id_tok = toks[q];
            proof {
                assert(token_wf(toks@[q as int], input@));
            }
            if !matches!(id_tok.kind, TokenKind::Ident) {
                return Err(ParseError { pos: id_tok.start });
            }
            let id = copy_range(input, id_tok.start, id_tok.end);
            proof {
                assert(valid_ident(id@));
            }
            let elem = TupType {
                name,
                name_pos: t.start,
                value,
                default: TupDefault::Finished { id },
            };
            proof {
                assert(spec_parse_type(input@, toks@, pos as int) == Some((elem@, q as int + 1)));
            }
            return Ok((elem, q + 1));
        }
        if punct_is(input, &marker, '=') {
            // An inline default expression, still to be lowered.
            let q = type_end + 1;
            let expr_end = match scan_run(input, toks, q, false) {
                Ok(e) => e,
                Err(e) => {
                    return Err(e);
                },
            };
            if expr_end == q {
                return Err(ParseError { pos: marker.start });
            }
            let expr = range_text(input, toks, q, expr_end);
            let elem = TupType {
                name,
                name_pos: t.start,
                value,
                default: TupDefault::Unfinished { expr },
            };
            proof {
                assert(spec_parse_type(input@, toks@, pos as int) == Some(
                    (elem@, expr_end as int),
                ));
            }
            return Ok((elem, expr_end));
        }
        let elem = TupType { name, name_pos: t.start, value, default: TupDefault::Absent };
        proof {
            assert(spec_parse_type(input@, toks@, pos as int) == Some((elem@, type_end as int)));
        }
        Ok((elem, type_end))
    }

    /// Writes the argument back out as `name: type`, with its default
    /// marker where one is set.
    pub fn to_tokens(&self) -> (r: Vec<char>)
        ensures
            r@ == spec_type_tokens(self@),
    {
        let mut out = crate::chars::clone_chars(&self.name);
        let mut sep = crate::chars::to_chars(": ");
        out.append(&mut sep);
        let mut ty = crate::chars::clone_chars(&self.value);
        out.append(&mut ty);
        match &self.default {
            TupDefault::Absent => {},
            TupDefault::Unfinished { expr } => {
                let mut eq = crate::chars::to_chars(" = ");
                out.append(&mut eq);
                let mut e = crate::chars::clone_chars(expr);
                out.append(&mut e);
            },
            TupDefault::Finished { id } => {
                let mut eq = crate::chars::to_chars(" == ");
                out.append(&mut eq);
                let mut e = crate::chars::clone_chars(id);
                out.append(&mut e);
            },
        }
        proof {
            assert(out@ =~= spec_type_tokens(self@));
        }
        out
    }
}

} // verus!
