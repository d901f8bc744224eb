//! One pass over a watched file or a listing: the answers of its changes,
//! the existence transition, and what becomes of its snapshot.

use vstd::prelude::*;
use crate::differ::{
    answers_view, check_diff, diff_answers, is_diff_outcome, is_line_diff, Answer, ChangeKind,
    LineChange,
};
use crate::normalize::Normalizer;

verus! {

/// What a pass over a watched file decided.
pub struct FilePass {
    /// The answers of the changed lines, in diff order.
    pub answers: Vec<Answer>,
    /// The answer for the path itself where it appeared or went away.
    pub transition: Option<Answer>,
    /// The snapshot is to hold the new contents; otherwise it is removed.
    pub store: bool,
}

/// The transition answer of a path: the path itself, removed where it
/// existed before and no longer does.
pub open spec fn transition_of(path: Seq<char>, stored_exists: bool, new_exists: bool) -> Option<(Seq<char>, bool)> {
    if stored_exists == new_exists {
        None
    } else {
        Some((path, stored_exists))
    }
}

pub open spec fn answer_opt_view(a: Option<Answer>) -> Option<(Seq<char>, bool)> {
    match a {
        Some(x) => Some(x@),
        None => None,
    }
}

/// A pass over `path` whose snapshot existed (`stored_exists`) and held
/// `old`, and whose file now exists (`new_exists`) and reads `new`.
pub open spec fn is_file_pass(
    answers: Seq<(Seq<char>, bool)>,
    transition: Option<(Seq<char>, bool)>,
    store: bool,
    path: Seq<char>,
    stored_exists: bool,
    old: Seq<char>,
    new_exists: bool,
    new: Seq<char>,
    identity: bool,
) -> bool {
    &&& is_diff_outcome(answers, old, new, path, identity)
    &&& transition == transition_of(path, stored_exists, new_exists)
    &&& store == new_exists
}

/// Compares a watched file with its snapshot. `old` is the snapshot's text
/// (empty where it was absent or unreadable), `new` the file's (empty where
/// it is absent, not a regular file or unreadable).
pub fn check_file(
    normalizer: &Normalizer,
    path: &str,
    stored_exists: bool,
    old: &str,
    new_exists: bool,
    new: &str,
    identity: bool,
) -> (r: FilePass)
    ensures
        is_file_pass(answers_view(r.answers@), answer_opt_view(r.transition), r.store, path@,
            stored_exists, old@, new_exists, new@, identity),
{
    let answers = check_diff(normalizer, old, new, path, identity);
    let transition = if stored_exists != new_exists {
        Some(Answer { text: path.to_owned(), removed: stored_exists })
    } else {
        None
    };
    FilePass { answers, transition, store: new_exists }
}

/// Compares a process or package listing with its snapshot; listings carry
/// no tag.
pub fn check_listing(normalizer: &Normalizer, old: &str, new: &str) -> (r: Vec<Answer>)
    ensures
        is_diff_outcome(answers_view(r@), old@, new@, Seq::empty(), false),
{
    let tag = "";
    proof {
        reveal_strlit("");
    }
    assert(tag@ =~= Seq::<char>::empty());
    check_diff(normalizer, old, new, tag, false)
}

proof fn lemma_all_equal_no_answers(cs: Seq<LineChange>, tag: Seq<char>, identity: bool)
    requires
        forall|i: int| 0 <= i < cs.len() ==> (#[trigger] cs[i]).kind == ChangeKind::Equal,
    ensures
        diff_answers(cs, tag, identity).len() == 0,
    decreases cs.len(),
{
    if cs.len() > 0 {
        assert(cs.last().kind == ChangeKind::Equal);
        assert forall|i: int| 0 <= i < cs.drop_last().len() implies (#[trigger] cs.drop_last()[i]).kind == ChangeKind::Equal by {
            assert(cs[i].kind == ChangeKind::Equal);
        }
        lemma_all_equal_no_answers(cs.drop_last(), tag, identity);
    }
}

/// A diff of a text against itself gives no answers.
pub proof fn lemma_same_text_no_answers(
    answers: Seq<(Seq<char>, bool)>,
    text: Seq<char>,
    tag: Seq<char>,
    identity: bool,
)
    requires
        is_diff_outcome(answers, text, text, tag, identity),
    ensures
        answers.len() == 0,
{
    let cs = choose|cs: Seq<LineChange>| is_line_diff(cs, text, text) && answers == diff_answers(cs, tag, identity);
    lemma_all_equal_no_answers(cs, tag, identity);
}

/// Two ticks with nothing changed on the host in between: the second pass
/// over a file reads back the snapshot the first one left (the file's text
/// where it exists, nothing where it does not), and gives no answer at all.
pub proof fn lemma_second_tick_quiet(
    answers: Seq<(Seq<char>, bool)>,
    transition: Option<(Seq<char>, bool)>,
    store: bool,
    path: Seq<char>,
    new_exists: bool,
    new: Seq<char>,
    identity: bool,
)
    requires
        !new_exists ==> new.len() == 0,
        is_file_pass(answers, transition, store, path, new_exists, if new_exists { new } else { Seq::empty() },
            new_exists, new, identity),
    ensures
        answers.len() == 0,
        transition is None,
{
    let old = if new_exists { new } else { Seq::<char>::empty() };
    assert(old =~= new);
    lemma_same_text_no_answers(answers, new, path, identity);
}

/// A second pass over a listing that did not change gives no answer.
pub proof fn lemma_second_listing_quiet(answers: Seq<(Seq<char>, bool)>, listing: Seq<char>)
    requires
        is_diff_outcome(answers, listing, listing, Seq::empty(), false),
    ensures
        answers.len() == 0,
{
    lemma_same_text_no_answers(answers, listing, Seq::empty(), false);
}

/// A pass gives at most one transition answer, and only where the path
/// appeared or went away.
pub proof fn lemma_one_transition(
    answers: Seq<(Seq<char>, bool)>,
    transition: Option<(Seq<char>, bool)>,
    store: bool,
    path: Seq<char>,
    stored_exists: bool,
    old: Seq<char>,
    new_exists: bool,
    new: Seq<char>,
    identity: bool,
)
    requires
        is_file_pass(answers, transition, store, path, stored_exists, old, new_exists, new, identity),
    ensures
        transition is Some <==> stored_exists != new_exists,
        transition matches Some(t) ==> t == (path, stored_exists),
{
}

} // verus!
