//! What a request asks of the file system, what the file system answers, and
//! the names that POST tries for a new file.

use crate::server::protocol::{Response, ResponseView, StatusCode};
use crate::server::responses::file_name;
use crate::text::{
    chars_of, decimal, lemma_decimal_injective, lemma_rfind_char, push_decimal, rfind, rfind_char,
    string_of,
};
use vstd::prelude::*;
use vstd::slice::slice_subrange;

verus! {

/// A change to the files that answering a request asks for.
#[derive(Debug, PartialEq, Eq)]
pub enum Effect {
    /// No change.
    Nothing,
    /// Write the body to the file, which is created or replaced.
    Write { path: String, body: Vec<u8> },
    /// Remove the file.
    RemoveFile { path: String },
    /// Remove the directory with all that it holds.
    RemoveTree { path: String },
}

/// An effect as specifications see it.
pub enum EffectView {
    Nothing,
    Write { path: Seq<char>, body: Seq<u8> },
    RemoveFile { path: Seq<char> },
    RemoveTree { path: Seq<char> },
}

impl View for Effect {
    type V = EffectView;

    open spec fn view(&self) -> EffectView {
        match self {
            Effect::Nothing => EffectView::Nothing,
            Effect::Write { path, body } => EffectView::Write { path: path@, body: body@ },
            Effect::RemoveFile { path } => EffectView::RemoveFile { path: path@ },
            Effect::RemoveTree { path } => EffectView::RemoveTree { path: path@ },
        }
    }
}

/// What to try where an effect failed: a file that could not be removed is
/// removed as a directory; nothing else is tried again.
pub open spec fn fallback(effect: EffectView) -> Option<EffectView> {
    match effect {
        EffectView::RemoveFile { path } => Some(EffectView::RemoveTree { path }),
        _ => None,
    }
}

/// What to try where an effect failed.
pub fn retry(effect: &Effect) -> (r: Option<Effect>)
    ensures
        match r {
            Some(next) => fallback(effect@) == Some(next@),
            None => fallback(effect@) is None,
        },
{
    match effect {
        Effect::RemoveFile { path } => Some(Effect::RemoveTree { path: path.clone() }),
        _ => None,
    }
}

/// The answer to a request with the change that it rests on: the response
/// is sent where the effect succeeds, the failure is reported where it does
/// not.
#[derive(Debug, PartialEq, Eq)]
pub struct Outcome {
    pub effect: Effect,
    pub response: Response,
    pub failure: StatusCode,
}

/// An outcome as specifications see it.
pub struct OutcomeView {
    pub effect: EffectView,
    pub response: ResponseView,
    pub failure: StatusCode,
}

impl View for Outcome {
    type V = OutcomeView;

    open spec fn view(&self) -> OutcomeView {
        OutcomeView { effect: self.effect@, response: self.response@, failure: self.failure }
    }
}

/// The answer once the effect of an outcome was tried: the response where
/// the effect was done, the failure where it was not.
pub fn settle(outcome: Outcome, done: bool) -> (r: Result<Response, StatusCode>)
    ensures
        match r {
            Ok(response) => done && response@ == outcome@.response,
            Err(code) => !done && code == outcome.failure,
        },
{
    if done {
        Ok(outcome.response)
    } else {
        Err(outcome.failure)
    }
}

/// What has to be known of a file before a request can be answered.
#[derive(Debug, PartialEq, Eq)]
pub enum Need {
    /// Nothing.
    Nothing,
    /// The bytes of the file.
    Contents(String),
    /// The length of the file.
    Length(String),
    /// Whether the file exists.
    Existence(String),
    /// The first name that is free among those that POST tries for the file.
    FreeName(String),
}

/// A need as specifications see it.
pub enum NeedView {
    Nothing,
    Contents(Seq<char>),
    Length(Seq<char>),
    Existence(Seq<char>),
    FreeName(Seq<char>),
}

impl View for Need {
    type V = NeedView;

    open spec fn view(&self) -> NeedView {
        match self {
            Need::Nothing => NeedView::Nothing,
            Need::Contents(path) => NeedView::Contents(path@),
            Need::Length(path) => NeedView::Length(path@),
            Need::Existence(path) => NeedView::Existence(path@),
            Need::FreeName(path) => NeedView::FreeName(path@),
        }
    }
}

/// What is known of a file.
#[derive(Debug, PartialEq, Eq)]
pub enum Fact {
    /// Nothing.
    Nothing,
    /// The bytes of the file, where it could be read.
    Contents(Option<Vec<u8>>),
    /// The length of the file, where it could be had.
    Length(Option<u64>),
    /// Whether the file exists.
    Existence(bool),
    /// The name to write to, or nothing where the search for one was given
    /// up.
    FreeName(Option<String>),
}

/// A fact as specifications see it.
pub enum FactView {
    Nothing,
    Contents(Option<Seq<u8>>),
    Length(Option<u64>),
    Existence(bool),
    FreeName(Option<Seq<char>>),
}

impl View for Fact {
    type V = FactView;

    open spec fn view(&self) -> FactView {
        match self {
            Fact::Nothing => FactView::Nothing,
            Fact::Contents(file) => FactView::Contents(
                match file {
                    Some(bytes) => Some(bytes@),
                    None => None,
                },
            ),
            Fact::Length(length) => FactView::Length(*length),
            Fact::Existence(exists) => FactView::Existence(*exists),
            Fact::FreeName(name) => FactView::FreeName(
                match name {
                    Some(text) => Some(text@),
                    None => None,
                },
            ),
        }
    }
}

/// Where a number is put into a path: before the last dot of the path's last
/// segment, or at the end where that segment holds no dot.
pub open spec fn number_place(path: Seq<char>) -> int {
    let name = file_name(path);
    match rfind_char(name, '.', name.len() as int) {
        Some(i) => path.len() - name.len() + i,
        None => path.len() as int,
    }
}

/// The path with a number in parentheses put into it.
pub open spec fn fresh_name(path: Seq<char>, n: nat) -> Seq<char> {
    let at = number_place(path);
    path.take(at) + seq!['('] + decimal(n) + seq![')'] + path.skip(at)
}

/// The names that POST tries, in order: the path itself, then the path with
/// the numbers from zero on.
pub open spec fn probe_name(path: Seq<char>, attempt: nat) -> Seq<char> {
    if attempt == 0 {
        path
    } else {
        fresh_name(path, (attempt - 1) as nat)
    }
}

/// The place of the number lies inside the path.
pub proof fn lemma_number_place(path: Seq<char>)
    ensures
        0 <= number_place(path) <= path.len(),
{
    lemma_rfind_char(path, '/', path.len() as int);
    let name = file_name(path);
    lemma_rfind_char(name, '.', name.len() as int);
}

/// The name that POST tries at an attempt.
pub fn post_name(path: &str, attempt: u64) -> (name: String)
    ensures
        name@ == probe_name(path@, attempt as nat),
{
    if attempt == 0 {
        return String::from_str(path);
    }
    let chars = chars_of(path);
    let start: usize = match rfind(chars.as_slice(), '/', chars.len()) {
        Some(i) => i + 1,
        None => 0,
    };
    let name = slice_subrange(chars.as_slice(), start, chars.len());
    assert(name@ == file_name(path@));
    let at: usize = match rfind(name, '.', name.len()) {
        Some(i) => start + i,
        None => chars.len(),
    };
    assert(at == number_place(path@));
    let mut out: Vec<char> = Vec::new();
    out.extend_from_slice(slice_subrange(chars.as_slice(), 0, at));
    out.push('(');
    push_decimal(&mut out, attempt - 1);
    out.push(')');
    out.extend_from_slice(slice_subrange(chars.as_slice(), at, chars.len()));
    proof {
        assert(chars@.subrange(0, at as int) == path@.take(at as int));
        assert(chars@.subrange(at as int, chars.len() as int) == path@.skip(at as int));
        assert(out@ == fresh_name(path@, (attempt - 1) as nat));
    }
    string_of(out.as_slice())
}

/// A step of POST in search of a free name.
#[derive(Debug, PartialEq, Eq)]
pub enum PostStep {
    /// Find out whether this name exists, and say so to `post_next`.
    Probe { attempt: u64, name: String },
    /// This name is free: write to it.
    Write { name: String },
    /// No attempt is left.
    GiveUp,
}

/// A step as specifications see it.
pub enum PostStepView {
    Probe { attempt: u64, name: Seq<char> },
    Write { name: Seq<char> },
    GiveUp,
}

impl View for PostStep {
    type V = PostStepView;

    open spec fn view(&self) -> PostStepView {
        match self {
            PostStep::Probe { attempt, name } => PostStepView::Probe {
                attempt: *attempt,
                name: name@,
            },
            PostStep::Write { name } => PostStepView::Write { name: name@ },
            PostStep::GiveUp => PostStepView::GiveUp,
        }
    }
}

/// The step that follows a probe: a name that does not exist is written to;
/// after a name that exists the next name is tried.
pub open spec fn next_step(path: Seq<char>, attempt: u64, exists: bool) -> PostStepView {
    if !exists {
        PostStepView::Write { name: probe_name(path, attempt as nat) }
    } else if attempt == u64::MAX {
        PostStepView::GiveUp
    } else {
        PostStepView::Probe {
            attempt: (attempt + 1) as u64,
            name: probe_name(path, (attempt + 1) as nat),
        }
    }
}

/// The first step of POST: to try the path itself.
pub fn post_start(path: &str) -> (step: PostStep)
    ensures
        step@ == (PostStepView::Probe { attempt: 0, name: path@ }),
{
    PostStep::Probe { attempt: 0, name: String::from_str(path) }
}

/// The step that follows the probe of the name of `attempt`.
pub fn post_next(path: &str, attempt: u64, exists: bool) -> (step: PostStep)
    ensures
        step@ == next_step(path@, attempt, exists),
{
    if !exists {
        PostStep::Write { name: post_name(path, attempt) }
    } else if attempt == u64::MAX {
        PostStep::GiveUp
    } else {
        PostStep::Probe { attempt: attempt + 1, name: post_name(path, attempt + 1) }
    }
}

/// The name that the steps of POST end on when the names in `taken` exist:
/// the first name that is not taken, from `attempt` on and within `budget`
/// more attempts.
pub open spec fn chosen(path: Seq<char>, taken: Set<Seq<char>>, attempt: nat, budget: nat)
    -> Option<Seq<char>>
    decreases budget,
{
    if !taken.contains(probe_name(path, attempt)) {
        Some(probe_name(path, attempt))
    } else if budget == 0 {
        None
    } else {
        chosen(path, taken, attempt + 1, (budget - 1) as nat)
    }
}

/// The name on which the steps of POST end when they start with the probe
/// of `attempt` and the names in `taken` exist: each probe is answered by
/// whether its name is taken, and the step that follows is taken in turn.
pub open spec fn steps_end(path: Seq<char>, taken: Set<Seq<char>>, attempt: u64) -> Option<
    Seq<char>,
>
    decreases u64::MAX - attempt,
{
    match next_step(path, attempt, taken.contains(probe_name(path, attempt as nat))) {
        PostStepView::Write { name } => Some(name),
        PostStepView::GiveUp => None,
        PostStepView::Probe { attempt: next, .. } => if next > attempt {
            steps_end(path, taken, next)
        } else {
            None
        },
    }
}

/// The steps of POST end on the first name that is not taken, and give up
/// only where every name up to the last attempt is taken.
pub proof fn lemma_steps_choose(path: Seq<char>, taken: Set<Seq<char>>, attempt: u64)
    ensures
        steps_end(path, taken, attempt) == chosen(
            path,
            taken,
            attempt as nat,
            (u64::MAX - attempt) as nat,
        ),
    decreases u64::MAX - attempt,
{
    if taken.contains(probe_name(path, attempt as nat)) && attempt < u64::MAX {
        lemma_steps_choose(path, taken, (attempt + 1) as u64);
    }
}

/// A path with a number put into it is not the path.
pub proof fn lemma_fresh_name_is_new(path: Seq<char>, n: nat)
    ensures
        fresh_name(path, n) != path,
{
    lemma_number_place(path);
    assert(fresh_name(path, n).len() == path.len() + 2 + decimal(n).len());
}

/// Two numbers put into a path give two names.
pub proof fn lemma_fresh_names_differ(path: Seq<char>, a: nat, b: nat)
    requires
        a != b,
    ensures
        fresh_name(path, a) != fresh_name(path, b),
{
    lemma_number_place(path);
    let at = number_place(path);
    let x = fresh_name(path, a);
    let y = fresh_name(path, b);
    if x == y {
        let la = decimal(a).len() as int;
        let lb = decimal(b).len() as int;
        assert(x.len() == path.len() + 2 + la);
        assert(y.len() == path.len() + 2 + lb);
        assert(x.subrange(at + 1, at + 1 + la) == decimal(a));
        assert(y.subrange(at + 1, at + 1 + lb) == decimal(b));
        lemma_decimal_injective(a, b);
    }
}

/// Where the path and its first `m` numbered names exist and the next does
/// not, POST ends on that next name.
pub proof fn lemma_post_takes_next(path: Seq<char>, taken: Set<Seq<char>>, m: nat, attempt: nat)
    requires
        attempt <= m + 1,
        forall|k: nat| k <= m ==> taken.contains(#[trigger] probe_name(path, k)),
        !taken.contains(probe_name(path, m + 1)),
    ensures
        chosen(path, taken, attempt, (m + 1 - attempt) as nat) == Some(fresh_name(path, m)),
    decreases m + 1 - attempt,
{
    if attempt <= m {
        assert(taken.contains(probe_name(path, attempt)));
        lemma_post_takes_next(path, taken, m, attempt + 1);
    }
}

/// A name that is found within a budget is found within any greater one.
pub proof fn lemma_chosen_within(
    path: Seq<char>,
    taken: Set<Seq<char>>,
    attempt: nat,
    budget: nat,
    more: nat,
)
    requires
        chosen(path, taken, attempt, budget) is Some,
        budget <= more,
    ensures
        chosen(path, taken, attempt, more) == chosen(path, taken, attempt, budget),
    decreases budget,
{
    if taken.contains(probe_name(path, attempt)) && budget > 0 {
        lemma_chosen_within(path, taken, attempt + 1, (budget - 1) as nat, (more - 1) as nat);
    }
}

/// The files that exist after a file was there and `n` POSTs for it were
/// answered: the path and its first `n` numbered names.
pub open spec fn after_posts(path: Seq<char>, n: nat) -> Set<Seq<char>> {
    Set::new(|name: Seq<char>| exists|k: nat| k <= n && name == #[trigger] probe_name(path, k))
}

/// Repeated POSTs for a file that exists write, in order, to the names with
/// the numbers from zero on, and never to a name that exists: after `n` of
/// them the steps of POST end on the name with the number `n`, which is not
/// among the files, and with it the files are those after one more POST.
pub proof fn lemma_repeated_posts(path: Seq<char>, n: nat)
    ensures
        chosen(path, after_posts(path, n), 0, n + 1) == Some(fresh_name(path, n)),
        n < u64::MAX ==> steps_end(path, after_posts(path, n), 0) == Some(fresh_name(path, n)),
        !after_posts(path, n).contains(fresh_name(path, n)),
        after_posts(path, n + 1) == after_posts(path, n).insert(fresh_name(path, n)),
{
    let taken = after_posts(path, n);
    let next = fresh_name(path, n);
    assert(next == probe_name(path, n + 1));
    assert forall|k: nat| k <= n implies next != #[trigger] probe_name(path, k) by {
        if k == 0 {
            lemma_fresh_name_is_new(path, n);
        } else {
            lemma_fresh_names_differ(path, n, (k - 1) as nat);
        }
    }
    assert forall|k: nat| k <= n implies taken.contains(#[trigger] probe_name(path, k)) by {}
    lemma_post_takes_next(path, taken, n, 0);
    if n < u64::MAX {
        lemma_chosen_within(path, taken, 0, n + 1, u64::MAX as nat);
        lemma_steps_choose(path, taken, 0);
    }
    assert(after_posts(path, n + 1) =~= taken.insert(next)) by {
        assert forall|name: Seq<char>| after_posts(path, n + 1).contains(name) implies taken.insert(
            next,
        ).contains(name) by {
            let k = choose|k: nat| k <= n + 1 && name == #[trigger] probe_name(path, k);
            if k <= n {
                assert(taken.contains(probe_name(path, k)));
            }
        }
        assert forall|name: Seq<char>| taken.insert(next).contains(name) implies after_posts(
            path,
            n + 1,
        ).contains(name) by {
            if name == next {
                assert(name == probe_name(path, n + 1));
            } else {
                let k = choose|k: nat| k <= n && name == #[trigger] probe_name(path, k);
                assert(k <= n + 1);
            }
        }
    }
}

} // verus!
