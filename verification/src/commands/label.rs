//! The arguments of `label` and how a todo's labels are shown.
use vstd::prelude::*;

use crate::text::join_strings;
use crate::todo::{parse_result_view, spec_parse_edit, LabelEdit};

verus! {

/// Why label edit arguments were refused.
pub enum EditArgsError {
    /// No edits given.
    Missing,
    /// A token that does not parse, with the parser's message.
    Invalid(String),
}

/// What parsing the tokens `ts` gives: the edits in order, or the message of
/// the first token that does not parse.
pub open spec fn parse_all(ts: Seq<Seq<char>>) -> Result<Seq<(bool, Seq<char>)>, Seq<char>>
    decreases ts.len(),
{
    if ts.len() == 0 {
        Ok(seq![])
    } else {
        match parse_all(ts.drop_last()) {
            Err(e) => Err(e),
            Ok(es) => match spec_parse_edit(ts.last()) {
                Err(e) => Err(e),
                Ok(e) => Ok(es.push(e)),
            },
        }
    }
}

/// Parses the label edit tokens of `label`; at least one is needed.
pub fn parse_edits(tokens: &Vec<String>) -> (r: Result<Vec<LabelEdit>, EditArgsError>)
    ensures
        tokens@.len() == 0 ==> (r matches Err(EditArgsError::Missing)),
        tokens@.len() > 0 ==> match parse_all(tokens@.map_values(|s: String| s@)) {
            Ok(es) => r matches Ok(v) && v@.map_values(|e: LabelEdit| e.edit_view()) == es,
            Err(m) => r matches Err(EditArgsError::Invalid(e)) && e@ == m,
        },
{
    if tokens.len() == 0 {
        return Err(EditArgsError::Missing);
    }
    let ghost ts = tokens@.map_values(|s: String| s@);
    let mut out: Vec<LabelEdit> = Vec::new();
    let mut i: usize = 0;
    assert(ts.take(0) =~= Seq::<Seq<char>>::empty());
    assert(out@.map_values(|e: LabelEdit| e.edit_view()) =~= Seq::<(bool, Seq<char>)>::empty());
    while i < tokens.len()
        invariant
            i <= tokens@.len(),
            ts == tokens@.map_values(|s: String| s@),
            parse_all(ts.take(i as int)) == Ok::<Seq<(bool, Seq<char>)>, Seq<char>>(
                out@.map_values(|e: LabelEdit| e.edit_view()),
            ),
        decreases tokens@.len() - i,
    {
        assert(ts.take(i + 1).drop_last() =~= ts.take(i as int));
        assert(ts.take(i + 1).last() == tokens@[i as int]@);
        let parsed = LabelEdit::parse(tokens[i].as_str());
        match parsed {
            Ok(e) => {
                let ghost o0 = out@;
                out.push(e);
                assert(out@.map_values(|e: LabelEdit| e.edit_view()) =~= o0.map_values(
                    |e: LabelEdit| e.edit_view(),
                ).push(parse_result_view(parsed)->Ok_0));
            },
            Err(m) => {
                proof {
                    lemma_parse_all_err(ts, i as int + 1);
                }
                return Err(EditArgsError::Invalid(m));
            },
        }
        i += 1;
    }
    assert(ts.take(i as int) =~= ts);
    Ok(out)
}

/// Once a prefix of the tokens fails to parse, all of them do, with the
/// same message.
pub proof fn lemma_parse_all_err(ts: Seq<Seq<char>>, k: int)
    requires
        0 <= k <= ts.len(),
        parse_all(ts.take(k)) is Err,
    ensures
        parse_all(ts) == parse_all(ts.take(k)),
    decreases ts.len() - k,
{
    if k < ts.len() {
        assert(ts.take(k + 1).drop_last() =~= ts.take(k));
        lemma_parse_all_err(ts, k + 1);
    } else {
        assert(ts.take(k) =~= ts);
    }
}

/// How a todo's labels are shown: `(none)`, or the labels separated by `, `.
pub fn labels_display(labels: &Vec<String>) -> (s: String)
    ensures
        labels@.len() == 0 ==> s@ == "(none)"@,
        labels@.len() > 0 ==> s@ == crate::text::join_with(labels@.map_values(|l: String| l@), ", "@),
{
    if labels.len() == 0 {
        "(none)".to_owned()
    } else {
        join_strings(labels, ", ")
    }
}

} // verus!
