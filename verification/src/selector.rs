//! The choice among several candidates, left to a program that the user has configured.
//!
//! The library says when the program is to be asked, what it is given, and what its
//! answer means. Running it is the caller's part.

use crate::error::{Error, ErrorView};
use crate::launcher::{shell_words, split_words};
use crate::lists::{index_of, lemma_place_contains, place};
use crate::text::{chars_of, first_line, first_line_trimmed, join, joined, trimmed};
use vstd::prelude::*;

verus! {

/// How a handler is to be chosen, as mathematics.
pub ghost enum SelectionView {
    Chosen(Seq<char>),
    Ask { command: Seq<Seq<char>>, input: Seq<char> },
}

/// How a handler is to be chosen.
#[derive(Debug, Clone, PartialEq, Eq)]
pub enum Selection {
    /// No question is needed: this is the handler.
    Chosen(String),
    /// The selector is to be run as `command`, with `input` on its standard input.
    Ask { command: Vec<String>, input: String },
}

impl View for Selection {
    type V = SelectionView;

    open spec fn view(&self) -> SelectionView {
        match self {
            Selection::Chosen(id) => SelectionView::Chosen(id@),
            Selection::Ask { command, input } => SelectionView::Ask {
                command: command.deep_view(),
                input: input@,
            },
        }
    }
}

/// How a handler is to be chosen among `candidates`, which are shown under `names`. The
/// first candidate is taken where there is one only or selection is disabled. Else the
/// selector, whose command is `selector` and splits into `words`, is asked, with one name
/// on each line of its input.
pub open spec fn selection(
    candidates: Seq<Seq<char>>,
    names: Seq<Seq<char>>,
    enabled: bool,
    selector: Seq<char>,
    words: Option<Seq<Seq<char>>>,
) -> Result<SelectionView, ErrorView> {
    if candidates.len() == 0 {
        Err(ErrorView::Cancelled)
    } else if candidates.len() == 1 || !enabled {
        Ok(SelectionView::Chosen(candidates[0]))
    } else {
        match words {
            Some(w) if w.len() > 0 => Ok(
                SelectionView::Ask { command: w, input: joined(names, '\n') },
            ),
            _ => Err(ErrorView::BadCmd(selector)),
        }
    }
}

/// What the selector's answer means: the candidate shown under the name that the first
/// line of `output` holds, white space at its ends aside. `Cancelled` where the selector
/// did not end well, or that line is empty or names no candidate.
pub open spec fn choice(
    candidates: Seq<Seq<char>>,
    names: Seq<Seq<char>>,
    success: bool,
    output: Seq<char>,
) -> Result<Seq<char>, ErrorView> {
    let picked = trimmed(first_line(output));
    let at = place(names, picked, 0);
    if success && picked.len() > 0 && at < names.len() && at < candidates.len() {
        Ok(candidates[at])
    } else {
        Err(ErrorView::Cancelled)
    }
}

/// A result with its parts as mathematics.
pub open spec fn selected(r: Result<Selection, Error>) -> Result<SelectionView, ErrorView> {
    match r {
        Ok(s) => Ok(s@),
        Err(e) => Err(e@),
    }
}

/// A result with its parts as mathematics.
pub open spec fn named(r: Result<String, Error>) -> Result<Seq<char>, ErrorView> {
    match r {
        Ok(s) => Ok(s@),
        Err(e) => Err(e@),
    }
}

/// How a handler is to be chosen among `candidates`, shown under `names`, where the
/// selector's command `selector` splits into `words`.
pub fn select_with(
    candidates: &Vec<String>,
    names: &Vec<String>,
    enabled: bool,
    selector: &str,
    words: Option<Vec<String>>,
) -> (r: Result<Selection, Error>)
    ensures
        selected(r) == selection(
            candidates.deep_view(),
            names.deep_view(),
            enabled,
            selector@,
            match words {
                Some(w) => Some(w.deep_view()),
                None => None,
            },
        ),
{
    if candidates.len() == 0 {
        return Err(Error::Cancelled);
    }
    if candidates.len() == 1 || !enabled {
        assert(candidates.deep_view()[0] == candidates@[0]@);
        return Ok(Selection::Chosen(candidates[0].clone()));
    }
    match words {
        Some(command) => {
            if command.len() > 0 {
                Ok(Selection::Ask { command, input: join(names, '\n') })
            } else {
                Err(Error::BadCmd(selector.to_owned()))
            }
        },
        None => Err(Error::BadCmd(selector.to_owned())),
    }
}

/// How a handler is to be chosen among `candidates`, shown under `names`.
///
/// Fails with `Cancelled` where there is no candidate, and with `BadCmd` where the
/// selector is needed and its command does not split into words.
pub fn select(candidates: &Vec<String>, names: &Vec<String>, enabled: bool, selector: &str) -> (r:
    Result<Selection, Error>)
    ensures
        selected(r) == selection(
            candidates.deep_view(),
            names.deep_view(),
            enabled,
            selector@,
            shell_words(selector@),
        ),
        candidates.len() == 1 || (!enabled && candidates.len() > 0) ==> selected(r) == Ok::<
            SelectionView,
            ErrorView,
        >(SelectionView::Chosen(candidates.deep_view()[0])),
{
    let words = split_words(selector);
    select_with(candidates, names, enabled, selector, words)
}

/// What the selector's answer means. `success` says whether the selector ended with
/// status zero, `output` holds what it wrote.
///
/// Fails with `Cancelled` where the selector did not end well, or the first line of its
/// output is empty or names no candidate.
pub fn chosen(candidates: &Vec<String>, names: &Vec<String>, success: bool, output: &str) -> (r:
    Result<String, Error>)
    ensures
        named(r) == choice(candidates.deep_view(), names.deep_view(), success, output@),
        !success || trimmed(first_line(output@)).len() == 0 || !names.deep_view().contains(
            trimmed(first_line(output@)),
        ) ==> named(r) == Err::<Seq<char>, ErrorView>(ErrorView::Cancelled),
{
    let picked = first_line_trimmed(&chars_of(output));
    let at = index_of(names, &picked);
    proof {
        lemma_place_contains(names.deep_view(), picked@);
    }
    if success && picked.as_str().unicode_len() > 0 && at < names.len() && at < candidates.len() {
        assert(candidates.deep_view()[at as int] == candidates@[at as int]@);
        Ok(candidates[at].clone())
    } else {
        Err(Error::Cancelled)
    }
}

} // verus!
