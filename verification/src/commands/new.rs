//! Where the title and body of a new todo come from: the options, the
//! title words, or else the editor.
use vstd::prelude::*;

use crate::editor::{opt_view, Composed};
use crate::text::{join_strings, join_with};

verus! {

/// The title given on the command line: `-t`, else the title words joined
/// by spaces, else none.
pub open spec fn spec_title_arg(title: Option<Seq<char>>, words: Seq<Seq<char>>) -> Option<Seq<char>> {
    if title is Some {
        title
    } else if words.len() == 0 {
        None
    } else {
        Some(join_with(words, " "@))
    }
}

/// Title and body from the arguments of `new`; `None` when no title is
/// given, and the editor is to be opened instead (a description given
/// without a title is then not used).
pub fn fields_from_args(title: Option<String>, description: Option<String>, title_words: &Vec<String>) -> (r: Option<(String, String)>)
    ensures
        match spec_title_arg(opt_view(title), title_words@.map_values(|w: String| w@)) {
            None => r is None,
            Some(t) => r matches Some(f) && f.0@ == t && f.1@ == (match description {
                Some(d) => d@,
                None => Seq::<char>::empty(),
            }),
        },
{
    let title_arg = match title {
        Some(t) => Some(t),
        None => if title_words.len() == 0 {
            None
        } else {
            Some(join_strings(title_words, " "))
        },
    };
    match title_arg {
        None => None,
        Some(t) => match description {
            Some(d) => Some((t, d)),
            None => Some((t, String::new())),
        },
    }
}

/// Title and body from the editor; an empty title aborts.
pub fn fields_from_editor(composed: Composed) -> (r: Result<(String, String), String>)
    ensures
        composed.title@.len() == 0 ==> (r matches Err(e) && e@ == "aborting: empty title"@),
        composed.title@.len() > 0 ==> (r matches Ok(f) && f.0 == composed.title && f.1 == composed.body),
{
    if composed.title.as_str().is_empty() {
        return Err("aborting: empty title".to_owned());
    }
    Ok((composed.title, composed.body))
}

} // verus!
