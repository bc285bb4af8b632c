//! The driver of the parser: the templates are applied to the stream one
//! after the other, each at most once, until all are used or the end of
//! the stream is met.

use vstd::prelude::*;
use std::collections::VecDeque;
use crate::app::{Mode, TokenExpr};
use crate::ast::{Syntax, SyntaxView};
use crate::evaluator::{
    rows_view, spec_compile, spec_evaluate, TemplateError, TemplateFault,
};
use crate::filters::{Filter, Registry};
use crate::row::Row;
use crate::stream::{messages, InputToken, Message};

verus! {

/// What the contracts see of a template: its text and its mode. The
/// markers of a section and the variables that a template may carry besides
/// have no part in a run, and so none here.
pub type TemplateView = (Seq<u8>, Mode);

/// The texts and modes of a list of templates.
pub open spec fn templates_view(ts: Seq<TokenExpr>) -> Seq<TemplateView> {
    Seq::new(ts.len(), |i: int| (ts[i].tag@, ts[i].spec_mode()))
}

/// The first template from place `i` on that cannot be used, and why.
pub open spec fn first_fault(ts: Seq<TemplateView>, i: int, y: SyntaxView, fs: Seq<Filter>) -> Option<
    (int, TemplateFault),
>
    decreases ts.len() - i,
{
    if i < 0 || i >= ts.len() {
        None
    } else {
        match spec_compile(ts[i].0, y, fs) {
            Err(fault) => Some((i, fault)),
            Ok(_) => first_fault(ts, i + 1, y, fs),
        }
    }
}

/// The rows that the templates from place `i` on give, and the messages
/// that wait in the queue after them. Each template is applied once, in
/// its mode; after the one that meets the end of the stream none is
/// applied.
pub open spec fn spec_run(
    ts: Seq<TemplateView>,
    i: int,
    y: SyntaxView,
    pending: Seq<Message>,
    fs: Seq<Filter>,
) -> (Seq<Map<Seq<u8>, Seq<u8>>>, Seq<Message>)
    decreases ts.len() - i,
{
    if i < 0 || i >= ts.len() {
        (Seq::empty(), pending)
    } else {
        match spec_compile(ts[i].0, y, fs) {
            Ok(nodes) => {
                let e = spec_evaluate(nodes, ts[i].1, pending, fs);
                if e.terminated {
                    (e.rows, e.pending)
                } else {
                    let (rows, left) = spec_run(ts, i + 1, y, e.pending, fs);
                    (e.rows + rows, left)
                }
            },
            Err(_) => (Seq::empty(), pending),
        }
    }
}

/// What driving the templates over the stream gives: the rows and the
/// messages left, or, where a template cannot be used, its place and the
/// reason. Nothing is taken from the queue then.
pub open spec fn spec_drive(
    ts: Seq<TemplateView>,
    y: SyntaxView,
    pending: Seq<Message>,
    fs: Seq<Filter>,
) -> Result<(Seq<Map<Seq<u8>, Seq<u8>>>, Seq<Message>), (int, TemplateFault)> {
    match first_fault(ts, 0, y, fs) {
        Some(fault) => Err(fault),
        None => Ok(spec_run(ts, 0, y, pending, fs)),
    }
}

/// Looks for the first template that cannot be used.
fn check_templates(templates: &Vec<TokenExpr>, syn: &Syntax, filters: &Registry) -> (r: Option<
    (usize, TemplateError),
>)
    requires
        syn@.wf(),
    ensures
        match r {
            Some((i, e)) => first_fault(templates_view(templates@), 0, syn@, filters@) == Some(
                (i as int, e@),
            ),
            None => first_fault(templates_view(templates@), 0, syn@, filters@) is None,
        },
{
    let ghost ts = templates_view(templates@);
    let mut i: usize = 0;
    while i < templates.len()
        invariant
            syn@.wf(),
            i <= templates@.len(),
            ts == templates_view(templates@),
            first_fault(ts, 0, syn@, filters@) == first_fault(ts, i as int, syn@, filters@),
        decreases templates@.len() - i,
    {
        match templates[i].compile(syn, filters) {
            Err(e) => {
                return Some((i, e));
            },
            Ok(_) => {},
        }
        i += 1;
    }
    None
}

/// Drives the templates over the stream. All templates are compiled before
/// any input is taken; where one cannot be used, its place and the reason
/// are given and the queue stays as it was.
pub fn drive(
    templates: &Vec<TokenExpr>,
    rx: &mut VecDeque<InputToken>,
    syn: &Syntax,
    filters: &Registry,
) -> (r: Result<Vec<Row>, (usize, TemplateError)>)
    requires
        syn@.wf(),
    ensures
        match r {
            Ok(rows) => spec_drive(
                templates_view(templates@),
                syn@,
                messages(old(rx)@),
                filters@,
            ) == Ok::<(Seq<Map<Seq<u8>, Seq<u8>>>, Seq<Message>), (int, TemplateFault)>(
                (rows_view(rows@), messages(final(rx)@)),
            ),
            Err((i, e)) => spec_drive(
                templates_view(templates@),
                syn@,
                messages(old(rx)@),
                filters@,
            ) == Err::<(Seq<Map<Seq<u8>, Seq<u8>>>, Seq<Message>), (int, TemplateFault)>(
                (i as int, e@),
            ) && final(rx)@ == old(rx)@,
        },
{
    if let Some(fault) = check_templates(templates, syn, filters) {
        return Err(fault);
    }
    let ghost ts = templates_view(templates@);
    let ghost whole = spec_run(ts, 0, syn@, messages(rx@), filters@);
    let mut rows: Vec<Row> = Vec::new();
    let mut i: usize = 0;
    assert(rows_view(rows@) + whole.0 =~= whole.0);
    while i < templates.len()
        invariant
            syn@.wf(),
            i <= templates@.len(),
            ts == templates_view(templates@),
            whole == spec_run(ts, 0, syn@, messages(old(rx)@), filters@),
            first_fault(ts, 0, syn@, filters@) is None,
            first_fault(ts, i as int, syn@, filters@) is None,
            whole == (
                rows_view(rows@) + spec_run(ts, i as int, syn@, messages(rx@), filters@).0,
                spec_run(ts, i as int, syn@, messages(rx@), filters@).1,
            ),
        decreases templates@.len() - i,
    {
        let ghost before = rows_view(rows@);
        match templates[i].evaluate(rx, syn, filters) {
            Ok((terminated, mut found)) => {
                let ghost these = rows_view(found@);
                let ghost rest = spec_run(ts, i + 1, syn@, messages(rx@), filters@).0;
                let ghost taken = rows@;
                let ghost added = found@;
                rows.append(&mut found);
                proof {
                    assert(rows@ == taken + added);
                    assert(rows_view(rows@) =~= before + these);
                    assert((before + these) + rest =~= before + (these + rest));
                }
                if terminated {
                    return Ok(rows);
                }
            },
            Err(_) => {
                assert(false);
            },
        }
        i += 1;
    }
    assert(rows_view(rows@) + Seq::<Map<Seq<u8>, Seq<u8>>>::empty() =~= rows_view(rows@));
    Ok(rows)
}

} // verus!
