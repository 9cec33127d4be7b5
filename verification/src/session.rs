//! The game session: target word, guess history, per-letter knowledge,
//! and the Guessing / Won / Lost lifecycle.

use crate::letters::all_belongs;
use crate::letters::chars_of;
use crate::letters::compare_vec;
use crate::letters::contains_char;
use crate::letters::is_all_belongs;
use crate::letters::lemma_equal_guess_all_belongs;
use crate::letters::lower_chars;
use crate::letters::lower_seq;
use crate::letters::spec_compare;
use crate::letters::LetterMatch;
use vstd::prelude::*;

verus! {

/// The number of letters a guess must have to count as a win.
pub const WORD_LEN: usize = 5;

/// The number of guesses a fresh session accepts before it is lost.
pub const MAX_GUESSES: u32 = 5;

/// The lifecycle state of a session.
#[derive(PartialEq, Eq, Structural, Clone, Copy, Debug)]
pub enum GameState {
    /// Guesses are being accepted.
    Guessing,
    /// The budget ran out before a winning guess.
    Lost,
    /// A winning guess was submitted.
    Won,
}

/// The word source offered no candidate word.
#[derive(PartialEq, Eq, Structural, Clone, Copy, Debug)]
pub struct SourceExhausted;

/// The mathematical model of a session: the target as a character
/// sequence, the history as a sequence of scored guesses, the three
/// knowledge sets as flat character sets, and the remaining budget.
#[verifier::ext_equal]
pub ghost struct SessionModel {
    pub target: Seq<char>,
    pub history: Seq<(Seq<char>, Seq<LetterMatch>)>,
    pub perfect: Set<char>,
    pub present: Set<char>,
    pub absent: Set<char>,
    pub state: GameState,
    pub remaining: nat,
}

/// A game session. Fields are readable by the surrounding user interface;
/// all transitions go through [`Wordle::submit_and_test_guess`] and the
/// reset operations.
pub struct Wordle {
    /// The hidden target word.
    pub word: String,
    /// Characters confirmed `Belongs` in at least one past guess.
    pub perfect_guess: Vec<char>,
    /// Characters confirmed absent from the target.
    pub bad_guess: Vec<char>,
    /// Characters confirmed present somewhere in the target.
    pub good_guess: Vec<char>,
    /// The scored guesses, in submission order.
    pub guesses_map: Vec<(String, Vec<LetterMatch>)>,
    /// The lifecycle state.
    pub game_state: GameState,
    /// How many further guesses will be scored before the session is lost.
    pub max_number_of_guesses: u32,
}

impl View for Wordle {
    type V = SessionModel;

    open spec fn view(&self) -> SessionModel {
        SessionModel {
            target: self.word@,
            history: Seq::new(
                self.guesses_map@.len(),
                |i: int| (self.guesses_map@[i].0@, self.guesses_map@[i].1@),
            ),
            perfect: self.perfect_guess@.to_set(),
            present: self.good_guess@.to_set(),
            absent: self.bad_guess@.to_set(),
            state: self.game_state,
            remaining: self.max_number_of_guesses as nat,
        }
    }
}

/// The model of a session that was just (re)seeded with the target `t`:
/// empty history, empty knowledge sets, full budget, `Guessing`.
pub open spec fn fresh_model(t: Seq<char>) -> SessionModel {
    SessionModel {
        target: t,
        history: Seq::empty(),
        perfect: Set::empty(),
        present: Set::empty(),
        absent: Set::empty(),
        state: GameState::Guessing,
        remaining: MAX_GUESSES as nat,
    }
}

/// What a reset leaves behind: the prior state is discarded wholesale.
pub open spec fn reset_model(m: SessionModel, t: Seq<char>) -> SessionModel {
    fresh_model(t)
}

/// The characters of the guess that occur somewhere in the target.
pub open spec fn present_of(g: Seq<char>, t: Seq<char>) -> Set<char> {
    g.to_set().filter(|c: char| t.contains(c))
}

/// The characters of the guess that occur nowhere in the target.
pub open spec fn absent_of(g: Seq<char>, t: Seq<char>) -> Set<char> {
    g.to_set().filter(|c: char| !t.contains(c))
}

/// The characters of the guess that stand at a position where guess and
/// target agree.
pub open spec fn perfect_of(g: Seq<char>, t: Seq<char>) -> Set<char> {
    Set::new(|c: char| exists|i: int| 0 <= i < g.len() && i < t.len() && g[i] == c && t[i] == c)
}

/// Whether the guess wins against the target: every scored position is
/// `Belongs`, and the guess has the canonical word length.
pub open spec fn spec_wins(g: Seq<char>, t: Seq<char>) -> bool {
    g.len() == WORD_LEN as nat && all_belongs(spec_compare(g, t))
}

/// One submission, on the model. Outside `Guessing` nothing changes; with
/// the budget exhausted the session is lost without scoring; otherwise the
/// (already lowercased) guess is scored against the target, appended to
/// the history, and folded into the three knowledge sets, and the session
/// is won exactly when the guess wins.
pub open spec fn step(m: SessionModel, g: Seq<char>) -> SessionModel {
    if m.state != GameState::Guessing {
        m
    } else if m.remaining == 0 {
        SessionModel { state: GameState::Lost, ..m }
    } else {
        SessionModel {
            target: m.target,
            history: m.history.push((g, spec_compare(g, m.target))),
            perfect: m.perfect + perfect_of(g, m.target),
            present: m.present + present_of(g, m.target),
            absent: m.absent + absent_of(g, m.target),
            state: if spec_wins(g, m.target) {
                GameState::Won
            } else {
                GameState::Guessing
            },
            remaining: (m.remaining - 1) as nat,
        }
    }
}

/// Relies on `<String as FromIterator<char>>::from_iter` (via `collect`):
/// the collected string holds exactly the characters of the vector, in
/// order.
#[verifier::external_body]
fn string_from_chars(v: &Vec<char>) -> (s: String)
    ensures
        s@ == v@,
{
    v.iter().collect()
}

/// Relies on `rand::Rng::gen_range` over `rand::thread_rng()`: it returns
/// a value drawn uniformly from the given range, and panics only when the
/// range is empty, which `0 < n` rules out.
#[verifier::external_body]
fn draw_index(n: usize) -> (r: usize)
    requires
        0 < n,
    ensures
        r < n,
{
    rand::Rng::gen_range(&mut rand::thread_rng(), 0..n)
}

/// Iterated submission: each guess of `gs`, in order.
pub open spec fn run(m: SessionModel, gs: Seq<Seq<char>>) -> SessionModel
    decreases gs.len(),
{
    if gs.len() == 0 {
        m
    } else {
        run(step(m, gs[0]), gs.drop_first())
    }
}

/// The budget equation: the recorded guesses and the remaining budget
/// together account exactly for the initial budget.
pub open spec fn budget_invariant(m: SessionModel) -> bool {
    m.history.len() + m.remaining == MAX_GUESSES as nat
}

/// A freshly seeded session satisfies the budget equation.
pub proof fn lemma_fresh_budget_invariant(t: Seq<char>)
    ensures
        budget_invariant(fresh_model(t)),
{
}

/// A submission preserves the budget equation, so the history of a
/// session never exceeds the initial guess budget.
pub proof fn lemma_step_preserves_budget_invariant(m: SessionModel, g: Seq<char>)
    requires
        budget_invariant(m),
    ensures
        budget_invariant(step(m, g)),
        step(m, g).history.len() <= MAX_GUESSES as nat,
{
}

/// A guess equal to the target, of the canonical length, is scored
/// `Belongs` at every position, and a session in `Guessing` with budget
/// left transitions to `Won` on submitting it.
pub proof fn lemma_equal_guess_wins(m: SessionModel, g: Seq<char>)
    requires
        m.state == GameState::Guessing,
        m.remaining > 0,
        g == m.target,
        g.len() == WORD_LEN as nat,
    ensures
        all_belongs(spec_compare(g, m.target)),
        step(m, g).state == GameState::Won,
{
    lemma_equal_guess_all_belongs(g, m.target);
}

/// Resetting is idempotent: a second reset with the same word changes
/// nothing, and the snapshot after either reset is the same fresh one —
/// empty history, empty knowledge sets, full budget, `Guessing`.
pub proof fn lemma_reset_idempotent(m: SessionModel, w: Seq<char>)
    ensures
        reset_model(reset_model(m, w), w) == reset_model(m, w),
        reset_model(m, w) == fresh_model(w),
{
}

/// The three letter-knowledge sets only grow across a submission.
pub proof fn lemma_letter_sets_monotone(m: SessionModel, g: Seq<char>)
    ensures
        m.perfect.subset_of(step(m, g).perfect),
        m.present.subset_of(step(m, g).present),
        m.absent.subset_of(step(m, g).absent),
{
}

/// Submitting non-winning guesses while the budget lasts keeps the
/// session guessing, spending one unit of budget and recording one guess
/// per submission.
proof fn lemma_run_spends_budget(m: SessionModel, gs: Seq<Seq<char>>)
    requires
        m.state == GameState::Guessing,
        gs.len() <= m.remaining,
        forall|i: int| 0 <= i < gs.len() ==> !spec_wins(gs[i], m.target),
    ensures
        run(m, gs).target == m.target,
        run(m, gs).state == GameState::Guessing,
        run(m, gs).remaining == m.remaining - gs.len(),
        run(m, gs).history.len() == m.history.len() + gs.len(),
    decreases gs.len(),
{
    if gs.len() > 0 {
        let m1 = step(m, gs[0]);
        assert(!spec_wins(gs[0], m.target));
        assert forall|i: int|
            0 <= i < gs.drop_first().len() implies !spec_wins(gs.drop_first()[i], m1.target) by {
            assert(gs.drop_first()[i] == gs[i + 1]);
        }
        lemma_run_spends_budget(m1, gs.drop_first());
    }
}

/// Budget exhaustion: from a fresh session, submitting as many
/// non-winning guesses as the budget allows leaves the session guessing
/// with an exhausted budget and one record per guess; one further
/// submission transitions to `Lost` without scoring, and at no point does
/// the history exceed the initial budget.
pub proof fn lemma_budget_exhaustion(m: SessionModel, gs: Seq<Seq<char>>, last: Seq<char>)
    requires
        m.state == GameState::Guessing,
        m.history.len() == 0,
        gs.len() == m.remaining,
        forall|i: int| 0 <= i < gs.len() ==> !spec_wins(gs[i], m.target),
    ensures
        run(m, gs).state == GameState::Guessing,
        run(m, gs).remaining == 0,
        run(m, gs).history.len() == gs.len(),
        step(run(m, gs), last).state == GameState::Lost,
        step(run(m, gs), last).history == run(m, gs).history,
        forall|k: int|
            0 <= k <= gs.len() ==> #[trigger] run(m, gs.take(k)).history.len() <= m.remaining,
{
    lemma_run_spends_budget(m, gs);
    assert forall|k: int|
        0 <= k <= gs.len() implies #[trigger] run(m, gs.take(k)).history.len()
        <= m.remaining by {
        assert forall|i: int| 0 <= i < gs.take(k).len() implies !spec_wins(
            gs.take(k)[i],
            m.target,
        ) by {
            assert(gs.take(k)[i] == gs[i]);
        }
        lemma_run_spends_budget(m, gs.take(k));
    }
}

proof fn lemma_push_to_set(v: Seq<char>, c: char)
    ensures
        (v.push(c)).to_set() == v.to_set().insert(c),
{
    assert forall|x: char| v.push(c).contains(x) implies v.contains(x) || x == c by {
        let i = choose|i: int| 0 <= i < v.push(c).len() && v.push(c)[i] == x;
        if i < v.len() {
            assert(v[i] == x);
        }
    }
    assert forall|x: char| v.contains(x) implies v.push(c).contains(x) by {
        let i = choose|i: int| 0 <= i < v.len() && v[i] == x;
        assert(v.push(c)[i] == x);
    }
    assert(v.push(c)[v.len() as int] == c);
    assert(v.push(c).contains(c));
    assert((v.push(c)).to_set() =~= v.to_set().insert(c));
}

proof fn lemma_take_push(g: Seq<char>, i: int)
    requires
        0 <= i < g.len(),
    ensures
        g.take(i + 1) == g.take(i).push(g[i]),
{
    assert(g.take(i + 1) =~= g.take(i).push(g[i]));
}

proof fn lemma_present_absent_extend(g: Seq<char>, t: Seq<char>, i: int)
    requires
        0 <= i < g.len(),
    ensures
        t.contains(g[i]) ==> present_of(g.take(i + 1), t) == present_of(g.take(i), t).insert(
            g[i],
        ),
        !t.contains(g[i]) ==> present_of(g.take(i + 1), t) == present_of(g.take(i), t),
        !t.contains(g[i]) ==> absent_of(g.take(i + 1), t) == absent_of(g.take(i), t).insert(g[i]),
        t.contains(g[i]) ==> absent_of(g.take(i + 1), t) == absent_of(g.take(i), t),
{
    lemma_take_push(g, i);
    lemma_push_to_set(g.take(i), g[i]);
    if t.contains(g[i]) {
        assert(present_of(g.take(i + 1), t) =~= present_of(g.take(i), t).insert(g[i]));
        assert(absent_of(g.take(i + 1), t) =~= absent_of(g.take(i), t));
    } else {
        assert(present_of(g.take(i + 1), t) =~= present_of(g.take(i), t));
        assert(absent_of(g.take(i + 1), t) =~= absent_of(g.take(i), t).insert(g[i]));
    }
}

proof fn lemma_perfect_extend(g: Seq<char>, t: Seq<char>, i: int)
    requires
        0 <= i < g.len(),
    ensures
        i < t.len() && g[i] == t[i] ==> perfect_of(g.take(i + 1), t) == perfect_of(
            g.take(i),
            t,
        ).insert(g[i]),
        !(i < t.len() && g[i] == t[i]) ==> perfect_of(g.take(i + 1), t) == perfect_of(
            g.take(i),
            t,
        ),
{
    let s1 = perfect_of(g.take(i + 1), t);
    let s0 = perfect_of(g.take(i), t);
    assert forall|c: char| s1.contains(c) implies s0.contains(c) || (i < t.len() && g[i] == t[i]
        && c == g[i]) by {
        let j = choose|j: int|
            0 <= j < g.take(i + 1).len() && j < t.len() && g.take(i + 1)[j] == c && t[j] == c;
        if j < i {
            assert(g.take(i)[j] == c && t[j] == c);
            assert(s0.contains(c));
        } else {
            assert(c == g[i]);
        }
    }
    assert forall|c: char| s0.contains(c) implies s1.contains(c) by {
        let j = choose|j: int|
            0 <= j < g.take(i).len() && j < t.len() && g.take(i)[j] == c && t[j] == c;
        assert(0 <= j < g.take(i + 1).len() && j < t.len() && g.take(i + 1)[j] == c && t[j] == c);
        assert(s1.contains(c));
    }
    if i < t.len() && g[i] == t[i] {
        assert(0 <= i < g.take(i + 1).len() && i < t.len() && g.take(i + 1)[i] == g[i] && t[i]
            == g[i]);
        assert(s1.contains(g[i]));
        assert(s1 =~= s0.insert(g[i]));
    } else {
        assert(s1 =~= s0);
    }
}

/// Adds `c` to the character vector unless it is already there, so the
/// vector keeps exactly one occurrence of each recorded character.
fn insert_char(v: &mut Vec<char>, c: char)
    ensures
        final(v)@.to_set() == old(v)@.to_set().insert(c),
{
    if !contains_char(v, c) {
        let ghost v0 = v@;
        v.push(c);
        proof {
            lemma_push_to_set(v0, c);
        }
    } else {
        proof {
            assert(v@.to_set() =~= v@.to_set().insert(c));
        }
    }
}

impl Wordle {
    /// A fresh session over the given target word.
    pub fn new(word: String) -> (s: Wordle)
        ensures
            s@ == fresh_model(word@),
    {
        let s = Wordle {
            word,
            perfect_guess: Vec::new(),
            bad_guess: Vec::new(),
            good_guess: Vec::new(),
            guesses_map: Vec::new(),
            game_state: GameState::Guessing,
            max_number_of_guesses: MAX_GUESSES,
        };
        proof {
            assert(s@ =~= fresh_model(s.word@));
        }
        s
    }

    /// A fresh session over a word drawn uniformly at random from the
    /// given list. An empty list means the word source is exhausted,
    /// which is fatal to session creation.
    pub fn from_words(words: &Vec<String>) -> (r: Result<Wordle, SourceExhausted>)
        ensures
            r is Ok <==> words@.len() > 0,
            r matches Ok(s) ==> exists|i: int|
                0 <= i < words@.len() && s@ == fresh_model(words@[i]@),
    {
        if words.len() == 0 {
            return Err(SourceExhausted);
        }
        let i = draw_index(words.len());
        let s = Wordle::new(words[i].clone());
        proof {
            assert(0 <= i < words@.len() && s@ == fresh_model(words@[i as int]@));
        }
        Ok(s)
    }

    /// Replaces the target and clears every trace of the previous round:
    /// empty history, empty knowledge sets, full budget, `Guessing`. The
    /// outcome does not depend on the session's prior state.
    pub fn reset(&mut self, new_target: String)
        ensures
            final(self)@ == reset_model(old(self)@, new_target@),
    {
        self.word = new_target;
        self.perfect_guess = Vec::new();
        self.bad_guess = Vec::new();
        self.good_guess = Vec::new();
        self.guesses_map = Vec::new();
        self.game_state = GameState::Guessing;
        self.max_number_of_guesses = MAX_GUESSES;
        proof {
            assert(Seq::<char>::empty().to_set() =~= Set::<char>::empty());
            assert(self@ =~= reset_model(old(self)@, self.word@));
        }
    }

    /// Draws a uniformly random word from the given list and reseeds the
    /// session with it, as [`Wordle::reset`] does. An empty list means
    /// the word source is exhausted; the session is then left untouched
    /// and the error is handed to the caller.
    pub fn new_random_word(&mut self, words: &Vec<String>) -> (r: Result<(), SourceExhausted>)
        ensures
            r is Ok <==> words@.len() > 0,
            r is Err ==> *final(self) == *old(self),
            r is Ok ==> exists|i: int|
                0 <= i < words@.len() && final(self)@ == reset_model(old(self)@, words@[i]@),
    {
        if words.len() == 0 {
            return Err(SourceExhausted);
        }
        let i = draw_index(words.len());
        let w = words[i].clone();
        self.reset(w);
        proof {
            assert(0 <= i < words@.len() && self@ == reset_model(old(self)@, words@[i as int]@));
        }
        Ok(())
    }

    /// Scores one guess. Outside `Guessing` the call is a no-op. With
    /// the budget already exhausted the session transitions to `Lost`
    /// without scoring. Otherwise the guess is lowercased, scored
    /// against the target, appended to the history, and folded into the
    /// three letter-knowledge sets; the session is won exactly when every
    /// scored position is `Belongs` and the guess has the canonical
    /// length.
    pub fn submit_and_test_guess(&mut self, guess: String)
        ensures
            final(self)@ == step(old(self)@, lower_seq(guess@)),
    {
        let ghost m0 = self@;
        let ghost g = lower_seq(guess@);
        if self.game_state != GameState::Guessing {
            return;
        }
        if self.max_number_of_guesses == 0 {
            self.game_state = GameState::Lost;
            proof {
                assert(self@ =~= step(m0, g));
            }
            return;
        }
        self.max_number_of_guesses -= 1;

        let raw_chars = chars_of(guess.as_str());
        let vec_guess = lower_chars(&raw_chars);
        let lowered = string_from_chars(&vec_guess);
        let vec_word = chars_of(self.word.as_str());
        let matching_letters = compare_vec(&vec_guess, &vec_word);
        let ghost t = m0.target;

        if is_all_belongs(&matching_letters) && vec_guess.len() == WORD_LEN {
            self.game_state = GameState::Won;
        }
        let ghost state1 = self.game_state;
        proof {
            assert(state1 == if spec_wins(g, t) {
                GameState::Won
            } else {
                GameState::Guessing
            });
        }

        let ghost hist0 = self.guesses_map@;
        let mut i: usize = 0;
        while i < vec_guess.len()
            invariant
                vec_guess@ == g,
                vec_word@ == t,
                matching_letters@ == spec_compare(g, t),
                i <= g.len(),
                self.word@ == t,
                self.game_state == state1,
                self.max_number_of_guesses as nat == (m0.remaining - 1) as nat,
                self.guesses_map@ == hist0,
                self.good_guess@.to_set() == m0.present + present_of(g.take(i as int), t),
                self.bad_guess@.to_set() == m0.absent + absent_of(g.take(i as int), t),
                self.perfect_guess@.to_set() == m0.perfect + perfect_of(g.take(i as int), t),
            decreases g.len() - i,
        {
            let c = vec_guess[i];
            if contains_char(&vec_word, c) {
                insert_char(&mut self.good_guess, c);
            } else {
                insert_char(&mut self.bad_guess, c);
            }
            proof {
                lemma_present_absent_extend(g, t, i as int);
                assert(self.good_guess@.to_set() =~= m0.present + present_of(
                    g.take(i as int + 1),
                    t,
                ));
                assert(self.bad_guess@.to_set() =~= m0.absent + absent_of(
                    g.take(i as int + 1),
                    t,
                ));
            }
            let scored = i < matching_letters.len() && matches!(
                matching_letters[i],
                LetterMatch::Belongs,
            );
            if scored {
                insert_char(&mut self.perfect_guess, c);
            }
            proof {
                lemma_perfect_extend(g, t, i as int);
                assert(scored == (i < t.len() && g[i as int] == t[i as int]));
                assert(self.perfect_guess@.to_set() =~= m0.perfect + perfect_of(
                    g.take(i as int + 1),
                    t,
                ));
            }
            i += 1;
        }
        proof {
            assert(g.take(g.len() as int) =~= g);
        }

        self.guesses_map.push((lowered, matching_letters));
        proof {
            assert(self@.history =~= m0.history.push((g, spec_compare(g, t))));
            assert(self@ =~= step(m0, g));
        }
    }
}

} // verus!
