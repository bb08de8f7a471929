use super::types::{parts_view, CodeExecuteResult, Part, PartView};
use crate::text::{copy_opt_string, push_str};
use vstd::prelude::*;

verus! {

/// The part that results from folding `incoming` into `last`, when the two
/// are of a kind that streams continuations; `None` when `incoming` must
/// stand as a part of its own.
pub open spec fn merged_view(last: PartView, incoming: PartView) -> Option<PartView> {
    match last {
        PartView::Text { text: a, thought: ta } => match incoming {
            PartView::Text { text: b, thought: tb } => if ta == tb {
                Some(PartView::Text { text: a + b, thought: ta })
            } else {
                None
            },
            _ => None,
        },
        PartView::InlineData { mime_type, data: a } => match incoming {
            PartView::InlineData { data: b, .. } => Some(
                PartView::InlineData { mime_type, data: a + b },
            ),
            _ => None,
        },
        PartView::ExecutableCode { language, code: a } => match incoming {
            PartView::ExecutableCode { code: b, .. } => Some(
                PartView::ExecutableCode { language, code: a + b },
            ),
            _ => None,
        },
        PartView::CodeExecutionResult { output: a, .. } => match incoming {
            PartView::CodeExecutionResult { outcome, output: b } => Some(
                PartView::CodeExecutionResult {
                    outcome,
                    output: match a {
                        Some(x) => match b {
                            Some(y) => Some(x + y),
                            None => Some(x),
                        },
                        None => b,
                    },
                },
            ),
            _ => None,
        },
        _ => None,
    }
}

/// Folds one incoming part into a list of parts: only the last part may
/// receive a continuation.
pub open spec fn merge_part(existing: Seq<PartView>, incoming: PartView) -> Seq<PartView> {
    if existing.len() == 0 {
        seq![incoming]
    } else {
        match merged_view(existing.last(), incoming) {
            Some(m) => existing.update(existing.len() - 1, m),
            None => existing.push(incoming),
        }
    }
}

/// Folds the incoming parts, in order, into the existing ones.
pub open spec fn merge_parts(existing: Seq<PartView>, incoming: Seq<PartView>) -> Seq<PartView>
    decreases incoming.len(),
{
    if incoming.len() == 0 {
        existing
    } else {
        merge_part(merge_parts(existing, incoming.drop_last()), incoming.last())
    }
}

/// Whether a part is an atomic unit that is never merged with its neighbour.
pub open spec fn is_atomic(p: PartView) -> bool {
    p is FunctionCall || p is FunctionResponse || p is FileData
}

/// Folds `incoming` into `last` where the kinds allow it; otherwise hands
/// `last` back unchanged.
fn merge_two(last: Part, incoming: &Part) -> (r: Result<Part, Part>)
    ensures
        match merged_view(last@, incoming@) {
            Some(m) => r is Ok && r->Ok_0@ == m,
            None => r is Err && r->Err_0@ == last@,
        },
{
    match last {
        Part::text(mut a) => {
            if let Part::text(b) = incoming {
                if a.thought == b.thought {
                    push_str(&mut a.text, b.text.as_str());
                    return Ok(Part::text(a));
                }
            }
            Err(Part::text(a))
        },
        Part::inline_data(mut a) => {
            if let Part::inline_data(b) = incoming {
                push_str(&mut a.data, b.data.as_str());
                return Ok(Part::inline_data(a));
            }
            Err(Part::inline_data(a))
        },
        Part::executable_code(mut a) => {
            if let Part::executable_code(b) = incoming {
                push_str(&mut a.code, b.code.as_str());
                return Ok(Part::executable_code(a));
            }
            Err(Part::executable_code(a))
        },
        Part::code_execution_result(a) => {
            if let Part::code_execution_result(b) = incoming {
                let output = match a.output {
                    Some(mut x) => {
                        if let Some(y) = &b.output {
                            push_str(&mut x, y.as_str());
                        }
                        Some(x)
                    },
                    None => copy_opt_string(&b.output),
                };
                return Ok(Part::code_execution_result(CodeExecuteResult { outcome: b.outcome, output }));
            }
            Err(Part::code_execution_result(a))
        },
        other => Err(other),
    }
}

/// Folds one part into `updating`.
fn merge_part_into(updating: &mut Vec<Part>, incoming: &Part)
    ensures
        parts_view(final(updating)@) == merge_part(parts_view(old(updating)@), incoming@),
{
    let ghost before = parts_view(updating@);
    match updating.pop() {
        None => {
            updating.push(incoming.copy());
            assert(parts_view(updating@) =~= seq![incoming@]);
        },
        Some(last) => {
            let ghost rest = updating@;
            assert(before =~= parts_view(rest).push(last@));
            match merge_two(last, incoming) {
                Ok(m) => {
                    updating.push(m);
                    assert(parts_view(updating@) =~= before.update(before.len() - 1, m@));
                },
                Err(l) => {
                    updating.push(l);
                    updating.push(incoming.copy());
                    assert(parts_view(updating@) =~= before.push(incoming@));
                },
            }
        },
    }
}

/// Folds the parts of a delta into an existing list of parts. Text, inline
/// data and code continue the last part when it has the same kind (text only
/// when the thought flags agree); a code execution result extends the last
/// one's output and takes the new outcome; calls, responses and file
/// references always stand as parts of their own.
pub fn concatenate_parts(updating: &mut Vec<Part>, updator: &[Part])
    ensures
        parts_view(final(updating)@) == merge_parts(parts_view(old(updating)@), parts_view(updator@)),
{
    let ghost start = parts_view(updating@);
    let mut i: usize = 0;
    while i < updator.len()
        invariant
            i <= updator@.len(),
            parts_view(updating@) == merge_parts(start, parts_view(updator@.take(i as int))),
        decreases updator@.len() - i,
    {
        merge_part_into(updating, &updator[i]);
        proof {
            let s = parts_view(updator@.take(i + 1));
            assert(s.drop_last() =~= parts_view(updator@.take(i as int)));
            assert(s.last() == updator@[i as int]@);
        }
        i += 1;
    }
    assert(updator@.take(i as int) =~= updator@);
}

/// Folding a delta split in two, one half after the other, gives the same
/// parts as folding it whole.
pub proof fn lemma_merge_split(existing: Seq<PartView>, a: Seq<PartView>, b: Seq<PartView>)
    ensures
        merge_parts(merge_parts(existing, a), b) == merge_parts(existing, a + b),
    decreases b.len(),
{
    if b.len() == 0 {
        assert(a + b =~= a);
    } else {
        lemma_merge_split(existing, a, b.drop_last());
        assert((a + b).drop_last() =~= a + b.drop_last());
        assert((a + b).last() == b.last());
    }
}

/// Two text deltas with the same thought flag, folded one after the other
/// into an empty list, give one text part holding both texts in order; with
/// different flags they give two parts, never concatenated.
pub proof fn lemma_text_deltas(a: Seq<char>, ta: bool, b: Seq<char>, tb: bool)
    ensures
        ta == tb ==> merge_parts(
            merge_parts(Seq::empty(), seq![PartView::Text { text: a, thought: ta }]),
            seq![PartView::Text { text: b, thought: tb }],
        ) == seq![PartView::Text { text: a + b, thought: ta }],
        ta != tb ==> merge_parts(
            merge_parts(Seq::empty(), seq![PartView::Text { text: a, thought: ta }]),
            seq![PartView::Text { text: b, thought: tb }],
        ) == seq![PartView::Text { text: a, thought: ta }, PartView::Text { text: b, thought: tb }],
{
    reveal_with_fuel(merge_parts, 2);
    let pa = PartView::Text { text: a, thought: ta };
    let pb = PartView::Text { text: b, thought: tb };
    assert(seq![pa].drop_last() =~= Seq::<PartView>::empty());
    assert(seq![pb].drop_last() =~= Seq::<PartView>::empty());
    assert(merge_parts(Seq::empty(), seq![pa]) == seq![pa]);
    if ta == tb {
        assert(seq![pa].update(0, PartView::Text { text: a + b, thought: ta }) =~= seq![
            PartView::Text { text: a + b, thought: ta },
        ]);
    } else {
        assert(seq![pa].push(pb) =~= seq![pa, pb]);
    }
}

/// Function calls, function responses and file references are never merged:
/// each one folded into a list is appended as a part of its own, so two of
/// them arriving in successive deltas of one turn stay two parts.
pub proof fn lemma_atomic_parts_kept(existing: Seq<PartView>, p: PartView, q: PartView)
    requires
        is_atomic(p),
        is_atomic(q),
    ensures
        merge_parts(existing, seq![p]) == existing.push(p),
        merge_parts(merge_parts(existing, seq![p]), seq![q]) == existing.push(p).push(q),
{
    reveal_with_fuel(merge_parts, 2);
    assert(seq![p].drop_last() =~= Seq::<PartView>::empty());
    assert(seq![q].drop_last() =~= Seq::<PartView>::empty());
    if existing.len() == 0 {
        assert(seq![p] =~= existing.push(p));
    }
}

} // verus!
