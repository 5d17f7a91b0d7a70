//! The admission filter: a boolean expression over `key=value` clauses,
//! combined with `&`, `|` and parentheses, evaluated against a record.
use vstd::prelude::*;
use crate::error::ExpectedError;
use crate::json::{
    entries_model, find_in, find_value, get_value_by_path, json_text, to_json_text, walk_path,
    JsonEntry, JsonModel, JsonValue,
};
use crate::text::{is_blank, split_on, trim};

verus! {

/// One element of a filter expression once its clauses are evaluated.
#[derive(Debug, Clone, Copy, PartialEq, Eq, Structural)]
pub enum FilterToken {
    Value(bool),
    Open,
    Close,
    And,
    Or,
}

/// A piece of the expression's text: a clause, or one of `&`, `|`, `(`, `)`.
pub enum Piece {
    Clause(Seq<char>),
    Op(char),
}

pub open spec fn is_op_char(c: char) -> bool {
    c == '&' || c == '|' || c == '(' || c == ')'
}

/// The pieces emitted so far, and the text pending since the last operator.
pub open spec fn lex(s: Seq<char>) -> (Seq<Piece>, Seq<char>)
    decreases s.len(),
{
    if s.len() == 0 {
        (Seq::empty(), Seq::empty())
    } else {
        let (ps, cur) = lex(s.drop_last());
        let c = s.last();
        if is_op_char(c) {
            (flush(ps, cur).push(Piece::Op(c)), Seq::empty())
        } else {
            (ps, cur.push(c))
        }
    }
}

/// Emits the pending text as a clause unless it is blank.
pub open spec fn flush(ps: Seq<Piece>, cur: Seq<char>) -> Seq<Piece> {
    if is_blank(cur) {
        ps
    } else {
        ps.push(Piece::Clause(cur))
    }
}

/// The expression split into clauses and operators.
pub open spec fn pieces(s: Seq<char>) -> Seq<Piece> {
    flush(lex(s).0, lex(s).1)
}

/// The text that a found field is compared with: a string's own characters,
/// the JSON text of anything else (`null` for a field that holds null).
pub open spec fn value_text(found: JsonModel) -> Seq<char> {
    match found {
        JsonModel::Str(s) => s,
        v => json_text(v),
    }
}

/// The field that a clause's key names: a dotted key is a path, a bare key is searched for.
pub open spec fn clause_lookup(record: Seq<(Seq<char>, JsonModel)>, key: Seq<char>) -> Option<JsonModel> {
    if key.contains('.') {
        walk_path(record, split_on(key, '.'))
    } else {
        find_in(record, key)
    }
}

/// The truth of one `key=value` clause; `None` when it does not hold exactly one `=`.
/// A key that names no field never matches, whatever the value.
pub open spec fn clause_result(record: Seq<(Seq<char>, JsonModel)>, clause: Seq<char>) -> Option<bool> {
    let parts = split_on(clause, '=');
    if parts.len() != 2 {
        None
    } else {
        match clause_lookup(record, trim(parts[0])) {
            Some(v) => Some(trim(parts[1]) == value_text(v)),
            None => Some(false),
        }
    }
}

pub open spec fn op_token(c: char) -> FilterToken {
    if c == '&' {
        FilterToken::And
    } else if c == '|' {
        FilterToken::Or
    } else if c == '(' {
        FilterToken::Open
    } else {
        FilterToken::Close
    }
}

/// The pieces with each clause replaced by its truth; `None` when a clause is malformed.
pub open spec fn tokens_of(record: Seq<(Seq<char>, JsonModel)>, ps: Seq<Piece>) -> Option<Seq<FilterToken>>
    decreases ps.len(),
{
    if ps.len() == 0 {
        Some(Seq::empty())
    } else {
        match tokens_of(record, ps.drop_last()) {
            None => None,
            Some(ts) => match ps.last() {
                Piece::Op(c) => Some(ts.push(op_token(c))),
                Piece::Clause(cl) => match clause_result(record, cl) {
                    Some(b) => Some(ts.push(FilterToken::Value(b))),
                    None => None,
                },
            },
        }
    }
}

/// Combines the two topmost operands under an operator; `&` is conjunction, any other disjunction.
pub open spec fn combine(op: FilterToken, top: bool, second: bool) -> bool {
    if op is And {
        top && second
    } else {
        top || second
    }
}

/// Reduces one operator: pops it and two operands, pushes the result.
pub open spec fn reduce_once(bools: Seq<bool>, ops: Seq<FilterToken>) -> Seq<bool> {
    bools.subrange(0, bools.len() - 2).push(
        combine(ops.last(), bools.last(), bools[bools.len() - 2]),
    )
}

/// Reduction at `)`: operators are reduced down to the matching `(`, which is dropped.
/// Fails on a missing `(` or on too few operands.
pub open spec fn close_group(bools: Seq<bool>, ops: Seq<FilterToken>) -> Option<(Seq<bool>, Seq<FilterToken>)>
    decreases ops.len(),
{
    if ops.len() == 0 {
        None
    } else if ops.last() is Open {
        Some((bools, ops.drop_last()))
    } else if bools.len() < 2 {
        None
    } else {
        close_group(reduce_once(bools, ops), ops.drop_last())
    }
}

/// Pushes `&` or `|`: an operator still pending above the innermost `(` is
/// reduced first, so operators of equal precedence associate left to right.
/// Fails when that operator lacks an operand.
pub open spec fn push_operator(bools: Seq<bool>, ops: Seq<FilterToken>, t: FilterToken) -> Option<(Seq<bool>, Seq<FilterToken>)> {
    if ops.len() > 0 && !(ops.last() is Open) {
        if bools.len() < 2 {
            None
        } else {
            Some((reduce_once(bools, ops), ops.drop_last().push(t)))
        }
    } else {
        Some((bools, ops.push(t)))
    }
}

/// The operand and operator stacks after the tokens, in order.
pub open spec fn run(ts: Seq<FilterToken>) -> Option<(Seq<bool>, Seq<FilterToken>)>
    decreases ts.len(),
{
    if ts.len() == 0 {
        Some((Seq::empty(), Seq::empty()))
    } else {
        match run(ts.drop_last()) {
            None => None,
            Some((bools, ops)) => match ts.last() {
                FilterToken::Value(b) => Some((bools.push(b), ops)),
                FilterToken::Close => close_group(bools, ops),
                FilterToken::Open => Some((bools, ops.push(FilterToken::Open))),
                t => push_operator(bools, ops, t),
            },
        }
    }
}

/// Reduces the remaining operators (at most one pending per group, see
/// `push_operator`); the result is the topmost operand.
/// Fails on an unmatched `(`, on too few operands, or with no operand at all.
pub open spec fn drain(bools: Seq<bool>, ops: Seq<FilterToken>) -> Option<bool>
    decreases ops.len(),
{
    if ops.len() == 0 {
        if bools.len() == 0 {
            None
        } else {
            Some(bools.last())
        }
    } else if ops.last() is Open || bools.len() < 2 {
        None
    } else {
        drain(reduce_once(bools, ops), ops.drop_last())
    }
}

pub open spec fn evaluate_tokens(ts: Seq<FilterToken>) -> Option<bool> {
    match run(ts) {
        Some((bools, ops)) => drain(bools, ops),
        None => None,
    }
}

/// What the filter `expr` decides for `record`; `None` when the expression is malformed.
/// A blank expression admits every record.
pub open spec fn filter_result(record: Seq<(Seq<char>, JsonModel)>, expr: Seq<char>) -> Option<bool> {
    if is_blank(expr) {
        Some(true)
    } else {
        match tokens_of(record, pieces(expr)) {
            Some(ts) => evaluate_tokens(ts),
            None => None,
        }
    }
}

} // verus!

verus! {

/// The text that a found field is compared with (see `value_text`).
fn found_text(found: &JsonValue) -> (r: String)
    ensures
        r@ == value_text(found@),
{
    match found {
        JsonValue::Str(s) => s.clone(),
        v => to_json_text(v),
    }
}

/// Evaluates one `key=value` clause against `values`.
/// Fails with `ParsingError` unless the clause holds exactly one `=`.
pub fn filter_value(values: &Vec<JsonEntry>, key_value: &str) -> (r: Result<bool, ExpectedError>)
    ensures
        match r {
            Ok(b) => clause_result(entries_model(values@), key_value@) == Some(b),
            Err(e) => clause_result(entries_model(values@), key_value@) is None && e is ParsingError,
        },
{
    let cs = crate::text::chars_of(key_value);
    let parts = crate::text::split_chars(&cs, '=');
    if parts.len() != 2 {
        return Err(
            ExpectedError::ParsingError(
                "invalid filter condition format; example='key=val'".to_string(),
            ),
        );
    }
    let ghost ps = split_on(key_value@, '=');
    assert(parts@[0]@ == ps[0]);
    assert(parts@[1]@ == ps[1]);
    let (ka, kb) = crate::text::trim_bounds(&parts[0], 0, parts[0].len());
    let (va, vb) = crate::text::trim_bounds(&parts[1], 0, parts[1].len());
    assert(parts@[0]@.subrange(0, parts@[0]@.len() as int) =~= ps[0]);
    assert(parts@[1]@.subrange(0, parts@[1]@.len() as int) =~= ps[1]);
    let key_chars = crate::text::string_of(&parts[0], ka, kb);
    let wanted = crate::text::string_of(&parts[1], va, vb);
    let kc = crate::text::chars_of(key_chars.as_str());
    let found = if crate::text::contains_char(&kc, '.') {
        match get_value_by_path(values, key_chars.as_str()) {
            Ok(v) => Some(v),
            Err(_) => None,
        }
    } else {
        find_value(values, key_chars.as_str())
    };
    match found {
        Some(v) => {
            let text = found_text(v);
            Ok(crate::text::str_eq(wanted.as_str(), text.as_str()))
        },
        None => Ok(false),
    }
}

/// Pops an operator and the two topmost operands and combines them.
/// Fails with `ParsingError`, leaving both stacks as they were, when either is short.
pub fn filter_calc(bool_stack: &mut Vec<bool>, calc_stack: &mut Vec<FilterToken>) -> (r: Result<
    bool,
    ExpectedError,
>)
    ensures
        match r {
            Ok(b) => old(calc_stack)@.len() > 0 && old(bool_stack)@.len() >= 2 && b == combine(
                old(calc_stack)@.last(),
                old(bool_stack)@.last(),
                old(bool_stack)@[old(bool_stack)@.len() - 2],
            ) && final(bool_stack)@ == old(bool_stack)@.subrange(0, old(bool_stack)@.len() - 2)
                && final(calc_stack)@ == old(calc_stack)@.drop_last(),
            Err(e) => (old(calc_stack)@.len() == 0 || old(bool_stack)@.len() < 2) && e is ParsingError
                && final(bool_stack)@ == old(bool_stack)@ && final(calc_stack)@ == old(calc_stack)@,
        },
{
    if calc_stack.len() == 0 || bool_stack.len() < 2 {
        return Err(ExpectedError::ParsingError("invalid filter condition".to_string()));
    }
    let op = calc_stack.pop().unwrap();
    let top = bool_stack.pop().unwrap();
    let second = bool_stack.pop().unwrap();
    assert(bool_stack@ =~= old(bool_stack)@.subrange(0, old(bool_stack)@.len() - 2));
    match op {
        FilterToken::And => Ok(top && second),
        _ => Ok(top || second),
    }
}

fn op_token_of(c: char) -> (r: FilterToken)
    ensures
        r == op_token(c),
{
    if c == '&' {
        FilterToken::And
    } else if c == '|' {
        FilterToken::Or
    } else if c == '(' {
        FilterToken::Open
    } else {
        FilterToken::Close
    }
}

proof fn lemma_run_none_prefix(ts: Seq<FilterToken>, k: int)
    requires
        0 <= k <= ts.len(),
        run(ts.subrange(0, k)) is None,
    ensures
        run(ts) is None,
    decreases ts.len() - k,
{
    if k < ts.len() {
        let a = ts.subrange(0, k + 1);
        assert(a.drop_last() =~= ts.subrange(0, k));
        lemma_run_none_prefix(ts, k + 1);
    } else {
        assert(ts.subrange(0, k) =~= ts);
    }
}

/// Adds the pending clause, when not blank, to the evaluated tokens.
fn flush_clause(
    values: &Vec<JsonEntry>,
    cur: &String,
    items: &mut Vec<FilterToken>,
    ok: &mut bool,
    Ghost(ps): Ghost<Seq<Piece>>,
)
    requires
        *old(ok) ==> tokens_of(entries_model(values@), ps) == Some(old(items)@),
        !*old(ok) ==> tokens_of(entries_model(values@), ps) is None,
    ensures
        *final(ok) ==> tokens_of(entries_model(values@), flush(ps, cur@)) == Some(final(items)@),
        !*final(ok) ==> tokens_of(entries_model(values@), flush(ps, cur@)) is None,
{
    if !crate::text::is_blank_str(cur.as_str()) {
        let ghost q = ps.push(Piece::Clause(cur@));
        assert(q.drop_last() =~= ps);
        if *ok {
            match filter_value(values, cur.as_str()) {
                Ok(b) => items.push(FilterToken::Value(b)),
                Err(_) => *ok = false,
            }
        }
    }
}

/// Decides whether `values` passes the filter expression `filter` (see `filter_result`).
/// `&` and `|` have equal precedence and associate left to right; a key that names
/// no field makes its clause false.
/// A blank expression admits everything; a malformed clause, unbalanced parentheses or
/// a missing operand fail with `ParsingError`.
pub fn filter(values: &Vec<JsonEntry>, expression: String) -> (r: Result<bool, ExpectedError>)
    ensures
        match r {
            Ok(b) => filter_result(entries_model(values@), expression@) == Some(b),
            Err(e) => filter_result(entries_model(values@), expression@) is None && e is ParsingError,
        },
{
    if crate::text::is_blank_str(expression.as_str()) {
        return Ok(true);
    }
    let ghost record = entries_model(values@);
    let cs = crate::text::chars_of(expression.as_str());
    let mut items: Vec<FilterToken> = Vec::new();
    let mut ok = true;
    let mut cur = String::new();
    let mut i: usize = 0;
    assert(cs@.subrange(0, 0) =~= Seq::<char>::empty());
    while i < cs.len()
        invariant
            record == entries_model(values@),
            cs@ == expression@,
            i <= cs@.len(),
            cur@ == lex(cs@.subrange(0, i as int)).1,
            ok ==> tokens_of(record, lex(cs@.subrange(0, i as int)).0) == Some(items@),
            !ok ==> tokens_of(record, lex(cs@.subrange(0, i as int)).0) is None,
        decreases cs@.len() - i,
    {
        let c = cs[i];
        let ghost pre = cs@.subrange(0, i as int);
        let ghost next = cs@.subrange(0, i + 1);
        assert(next.drop_last() =~= pre);
        if c == '&' || c == '|' || c == '(' || c == ')' {
            flush_clause(values, &cur, &mut items, &mut ok, Ghost(lex(pre).0));
            let ghost fl = flush(lex(pre).0, lex(pre).1);
            assert(fl.push(Piece::Op(c)).drop_last() =~= fl);
            if ok {
                items.push(op_token_of(c));
            }
            cur = String::new();
            assert(cur@ =~= lex(next).1);
        } else {
            crate::text::push_char(&mut cur, c);
        }
        i = i + 1;
    }
    assert(cs@.subrange(0, i as int) =~= expression@);
    flush_clause(values, &cur, &mut items, &mut ok, Ghost(lex(expression@).0));
    if !ok {
        return Err(ExpectedError::ParsingError("invalid filter condition format; example='key=val'".to_string()));
    }
    let ghost ts = items@;
    assert(tokens_of(record, pieces(expression@)) == Some(ts));
    let mut bool_stack: Vec<bool> = Vec::new();
    let mut calc_stack: Vec<FilterToken> = Vec::new();
    let mut k: usize = 0;
    assert(ts.subrange(0, 0) =~= Seq::<FilterToken>::empty());
    while k < items.len()
        invariant
            ts == items@,
            k <= ts.len(),
            run(ts.subrange(0, k as int)) == Some((bool_stack@, calc_stack@)),
            record == entries_model(values@),
            !is_blank(expression@),
            tokens_of(record, pieces(expression@)) == Some(ts),
        decreases ts.len() - k,
    {
        let t = items[k];
        let ghost next = ts.subrange(0, k + 1);
        assert(next.drop_last() =~= ts.subrange(0, k as int));
        match t {
            FilterToken::Value(b) => {
                bool_stack.push(b);
            },
            FilterToken::Close => {
                let ghost b0 = bool_stack@;
                let ghost o0 = calc_stack@;
                while calc_stack.len() > 0 && calc_stack[calc_stack.len() - 1] != FilterToken::Open
                    invariant
                        close_group(b0, o0) == close_group(bool_stack@, calc_stack@),
                        ts == items@,
                        k < ts.len(),
                        ts[k as int] == FilterToken::Close,
                        run(ts.subrange(0, k as int)) == Some((b0, o0)),
                        ts.subrange(0, k + 1).drop_last() == ts.subrange(0, k as int),
                        record == entries_model(values@),
                        !is_blank(expression@),
                        tokens_of(record, pieces(expression@)) == Some(ts),
                    decreases calc_stack@.len(),
                {
                    match filter_calc(&mut bool_stack, &mut calc_stack) {
                        Ok(v) => {
                            bool_stack.push(v);
                        },
                        Err(e) => {
                            proof {
                                lemma_run_none_prefix(ts, k + 1);
                            }
                            return Err(e);
                        },
                    }
                }
                if calc_stack.len() == 0 {
                    proof {
                        lemma_run_none_prefix(ts, k + 1);
                    }
                    return Err(ExpectedError::ParsingError("unbalanced parentheses".to_string()));
                }
                calc_stack.pop();
            },
            FilterToken::Open => {
                calc_stack.push(t);
            },
            _ => {
                if calc_stack.len() > 0 && calc_stack[calc_stack.len() - 1] != FilterToken::Open {
                    match filter_calc(&mut bool_stack, &mut calc_stack) {
                        Ok(v) => {
                            bool_stack.push(v);
                        },
                        Err(e) => {
                            proof {
                                lemma_run_none_prefix(ts, k + 1);
                            }
                            return Err(e);
                        },
                    }
                }
                calc_stack.push(t);
            },
        }
        k = k + 1;
    }
    assert(ts.subrange(0, k as int) =~= ts);
    let ghost b0 = bool_stack@;
    let ghost o0 = calc_stack@;
    while calc_stack.len() > 0
        invariant
            drain(b0, o0) == drain(bool_stack@, calc_stack@),
            run(ts) == Some((b0, o0)),
            record == entries_model(values@),
            !is_blank(expression@),
            tokens_of(record, pieces(expression@)) == Some(ts),
        decreases calc_stack@.len(),
    {
        if calc_stack[calc_stack.len() - 1] == FilterToken::Open {
            return Err(ExpectedError::ParsingError("unbalanced parentheses".to_string()));
        }
        match filter_calc(&mut bool_stack, &mut calc_stack) {
            Ok(v) => {
                bool_stack.push(v);
            },
            Err(e) => {
                return Err(e);
            },
        }
    }
    match bool_stack.pop() {
        Some(v) => Ok(v),
        None => Err(ExpectedError::ParsingError("invalid filter condition".to_string())),
    }
}

} // verus!

verus! {

/// A blank expression (the empty one included) admits every record.
pub proof fn lemma_blank_expression_admits(record: Seq<(Seq<char>, JsonModel)>, expr: Seq<char>)
    requires
        is_blank(expr),
    ensures
        filter_result(record, expr) == Some(true),
{
}

/// The empty expression is blank.
pub proof fn lemma_empty_expression_is_blank()
    ensures
        is_blank(Seq::<char>::empty()),
{
}

} // verus!
