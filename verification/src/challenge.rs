//! The adaptive quiz engine: one target word at a time, letter-by-letter
//! input, scoring, a trailing window of the last ten attempts, and
//! level-transition decisions over the grade ladder.

use vstd::prelude::*;
use crate::grade_level::GradeLevel;
use crate::word_list_loader::WordListLoader;
use crate::text::{lower_seq, lower_string, push_char, to_lower_char, views_of};
use crate::dictionary::seq_has;

verus! {

/// How the target word is presented; affects the reveal policy only,
/// never the scoring.
#[derive(Debug, Clone, Copy, PartialEq, Eq, Structural)]
pub enum ChallengeMode {
    Visual,
    Audio,
}

/// How many trailing attempts the rolling window holds.
pub open spec fn window_capacity() -> int {
    10
}

/// How many of the trailing attempts are correct.
pub open spec fn count_true(s: Seq<bool>) -> int
    decreases s.len(),
{
    if s.len() == 0 {
        0
    } else {
        count_true(s.drop_last()) + if s.last() {
            1int
        } else {
            0int
        }
    }
}

/// A push into the bounded window: the oldest entry is evicted once the
/// window is full.
pub open spec fn push_capped(s: Seq<bool>, b: bool) -> Seq<bool> {
    if s.len() + 1 > window_capacity() {
        s.push(b).skip(1)
    } else {
        s.push(b)
    }
}

/// Whether every word of `bank` already stands in `completed`.
pub open spec fn all_in(bank: Seq<Seq<char>>, completed: Seq<Seq<char>>) -> bool {
    forall|i: int| 0 <= i < bank.len() ==> seq_has(completed, #[trigger] bank[i])
}

/// The words of the bank still to be quizzed: those outside the
/// completed set, in bank order.
pub open spec fn remaining_words(bank: Seq<Seq<char>>, completed: Seq<Seq<char>>) -> Seq<Seq<char>>
    decreases bank.len(),
{
    if bank.len() == 0 {
        Seq::<Seq<char>>::empty()
    } else if seq_has(completed, bank.last()) {
        remaining_words(bank.drop_last(), completed)
    } else {
        remaining_words(bank.drop_last(), completed).push(bank.last())
    }
}

/// The remaining words are exactly the uncompleted part of the bank:
/// none are left exactly when the bank is exhausted, and each one
/// stands in the bank and outside the completed set.
pub proof fn lemma_remaining_words_facts(bank: Seq<Seq<char>>, completed: Seq<Seq<char>>)
    ensures
        (remaining_words(bank, completed).len() == 0) <==> all_in(bank, completed),
        forall|k: int| 0 <= k < remaining_words(bank, completed).len() ==> seq_has(
            bank,
            #[trigger] remaining_words(bank, completed)[k],
        ) && !seq_has(completed, remaining_words(bank, completed)[k]),
    decreases bank.len(),
{
    if bank.len() > 0 {
        let head = bank.drop_last();
        lemma_remaining_words_facts(head, completed);
        assert forall|i: int| 0 <= i < head.len() implies seq_has(bank, #[trigger] head[i]) by {
            assert(bank[i] == head[i]);
        }
        if remaining_words(bank, completed).len() == 0 {
            assert forall|i: int| 0 <= i < bank.len() implies seq_has(
                completed,
                #[trigger] bank[i],
            ) by {
                if i < bank.len() - 1 {
                    assert(head[i] == bank[i]);
                }
            }
        }
        if all_in(bank, completed) {
            assert(seq_has(completed, bank.last()));
            assert(all_in(head, completed)) by {
                assert forall|i: int| 0 <= i < head.len() implies seq_has(
                    completed,
                    #[trigger] head[i],
                ) by {
                    assert(bank[i] == head[i]);
                }
            }
        }
        if !seq_has(completed, bank.last()) {
            assert(seq_has(bank, bank.last())) by {
                assert(bank[bank.len() - 1] == bank.last());
            }
        }
    }
}

/// The bank words at the given index list, in list order.
pub open spec fn words_at(bank: Seq<Seq<char>>, idxs: Seq<usize>) -> Seq<Seq<char>> {
    Seq::new(idxs.len(), |k: int| bank[idxs[k] as int])
}

/// One live quiz session.
#[derive(Debug)]
pub struct WordChallenge {
    pub grade_level: GradeLevel,
    pub current_word: String,
    pub typed_letters: Vec<char>,
    pub score: usize,
    pub words_completed: usize,
    pub available_words: Vec<String>,
    pub is_celebrating: bool,
    pub mode: ChallengeMode,
    pub recent_attempts: Vec<bool>,
    pub attempts_since_level_change: usize,
    pub current_word_wrong_attempts: usize,
    pub completed_words: Vec<String>,
}

impl WordChallenge {
    /// The candidate word bank for the current level.
    pub open spec fn spec_bank(self) -> Seq<Seq<char>> {
        views_of(self.available_words@)
    }

    /// The trailing window of attempt outcomes, oldest first.
    pub open spec fn spec_recent(self) -> Seq<bool> {
        self.recent_attempts@
    }

    /// How many attempts have been recorded since the last level change.
    pub open spec fn spec_attempts_since_change(self) -> int {
        self.attempts_since_level_change as int
    }

    /// How many wrong attempts the current target word has seen.
    pub open spec fn spec_wrong_attempts(self) -> int {
        self.current_word_wrong_attempts as int
    }

    /// The words answered correctly at the current bank.
    pub open spec fn spec_completed(self) -> Seq<Seq<char>> {
        views_of(self.completed_words@)
    }

    /// The structural invariant: the attempt window never exceeds its
    /// capacity.
    pub open spec fn wf(self) -> bool {
        self.spec_recent().len() <= window_capacity()
    }

    /// Whether the whole bank has been completed, so that the next
    /// selection recycles it.
    pub open spec fn bank_exhausted(self) -> bool {
        all_in(self.spec_bank(), self.spec_completed())
    }

    /// What `should_level_up` decides: a full window, at least ten
    /// attempts since the last change, and at least eight of the last ten
    /// correct (accuracy at or above four fifths).
    pub open spec fn spec_should_level_up(self) -> bool {
        self.spec_recent().len() >= window_capacity()
            && self.spec_attempts_since_change() >= window_capacity()
            && count_true(self.spec_recent()) >= 8
    }

    /// What `should_level_down` decides: a full window, at least ten
    /// attempts since the last change, and fewer than five of the last
    /// ten correct (accuracy below one half).
    pub open spec fn spec_should_level_down(self) -> bool {
        self.spec_recent().len() >= window_capacity()
            && self.spec_attempts_since_change() >= window_capacity()
            && count_true(self.spec_recent()) < 5
    }

    /// Whether two sessions agree on everything but the typed input.
    pub open spec fn same_but_typed(self, other: WordChallenge) -> bool {
        &&& self.grade_level == other.grade_level
        &&& self.current_word == other.current_word
        &&& self.score == other.score
        &&& self.words_completed == other.words_completed
        &&& self.spec_bank() == other.spec_bank()
        &&& self.is_celebrating == other.is_celebrating
        &&& self.mode == other.mode
        &&& self.spec_recent() == other.spec_recent()
        &&& self.spec_attempts_since_change() == other.spec_attempts_since_change()
        &&& self.spec_wrong_attempts() == other.spec_wrong_attempts()
        &&& self.spec_completed() == other.spec_completed()
    }

    /// Starts a session at the chosen level with the given bank and
    /// selects a first target word. A start with an empty bank is
    /// refused: the caller receives no session.
    pub fn new(mode: ChallengeMode, initial_level: GradeLevel, words: Vec<String>) -> (r: Option<
        WordChallenge,
    >)
        ensures
            r is Some <==> words@.len() > 0,
            match r {
                Some(s) => {
                    &&& s.wf()
                    &&& s.grade_level == initial_level
                    &&& s.mode == mode
                    &&& s.score == 0
                    &&& s.words_completed == 0
                    &&& !s.is_celebrating
                    &&& s.spec_bank() == views_of(words@)
                    &&& s.spec_recent() == Seq::<bool>::empty()
                    &&& s.spec_attempts_since_change() == 0
                    &&& s.spec_wrong_attempts() == 0
                    &&& s.spec_completed() == Seq::<Seq<char>>::empty()
                    &&& s.typed_letters@ == Seq::<char>::empty()
                    &&& seq_has(views_of(words@), s.current_word@)
                },
                None => true,
            },
    {
        if words.len() == 0 {
            return None;
        }
        let mut challenge = WordChallenge {
            grade_level: initial_level,
            current_word: String::new(),
            typed_letters: Vec::new(),
            score: 0,
            words_completed: 0,
            available_words: words,
            is_celebrating: false,
            mode,
            recent_attempts: Vec::new(),
            attempts_since_level_change: 0,
            current_word_wrong_attempts: 0,
            completed_words: Vec::new(),
        };
        proof {
            assert(!seq_has(challenge.spec_completed(), challenge.spec_bank()[0]));
        }
        challenge.next_word();
        Some(challenge)
    }

    /// Selects the next target word, drawn uniformly at random: a word of
    /// the bank outside the completed set when one remains; once the bank
    /// is exhausted the completed set is cleared first, so any bank word
    /// — the most recent one included — may be drawn again. Clears the
    /// typed input and the per-word wrong-attempt counter; with an empty
    /// bank the call is a no-op that leaves the session unchanged. The
    /// draw itself lives in `select_word_at`, which a caller may drive
    /// deterministically.
    pub fn next_word(&mut self)
        requires
            old(self).wf(),
        ensures
            final(self).wf(),
            final(self).grade_level == old(self).grade_level,
            final(self).mode == old(self).mode,
            final(self).score == old(self).score,
            final(self).words_completed == old(self).words_completed,
            final(self).is_celebrating == old(self).is_celebrating,
            final(self).spec_recent() == old(self).spec_recent(),
            final(self).spec_attempts_since_change() == old(self).spec_attempts_since_change(),
            final(self).spec_bank() == old(self).spec_bank(),
            old(self).spec_bank().len() == 0 ==> *final(self) == *old(self),
            old(self).spec_bank().len() > 0 ==> final(self).typed_letters@ == Seq::<
                char,
            >::empty() && final(self).spec_wrong_attempts() == 0,
            old(self).spec_bank().len() > 0 && !old(self).bank_exhausted() ==> final(self).spec_completed() == old(self).spec_completed() && seq_has(
                old(self).spec_bank(),
                final(self).current_word@,
            ) && !seq_has(old(self).spec_completed(), final(self).current_word@),
            old(self).spec_bank().len() > 0 && old(self).bank_exhausted() ==> final(self).spec_completed() == Seq::<Seq<char>>::empty() && seq_has(
                old(self).spec_bank(),
                final(self).current_word@,
            ),
    {
        let n = self.available_words.len();
        if n == 0 {
            return ;
        }
        let ghost obank = self.spec_bank();
        let ghost ocompleted = self.spec_completed();
        let remaining = self.remaining_indices();
        let m = remaining.len();
        let pick = if m > 0 {
            pick_below(m)
        } else {
            pick_below(n)
        };
        proof {
            lemma_remaining_words_facts(obank, ocompleted);
        }
        self.select_word_at(pick);
        proof {
            if m == 0 {
                vstd::arithmetic::div_mod::lemma_small_mod(pick as nat, n as nat);
                assert(seq_has(obank, obank[pick as int]));
            } else {
                vstd::arithmetic::div_mod::lemma_small_mod(
                    pick as nat,
                    remaining_words(obank, ocompleted).len() as nat,
                );
                assert(self.current_word@ == remaining_words(obank, ocompleted)[pick as int]);
            }
        }
    }

    /// The deterministic heart of word selection: `pick` decides the
    /// draw. A word of the bank outside the completed set is chosen when
    /// one remains; once the bank is exhausted the completed set is
    /// cleared first and the whole bank is eligible again. `pick` is
    /// reduced modulo the number of candidates, so every value selects
    /// some word; the caller supplies the randomness. Clears the typed
    /// input and the per-word wrong-attempt counter; with an empty bank
    /// the call is a no-op that leaves the session unchanged.
    pub fn select_word_at(&mut self, pick: usize)
        requires
            old(self).wf(),
        ensures
            final(self).wf(),
            final(self).grade_level == old(self).grade_level,
            final(self).mode == old(self).mode,
            final(self).score == old(self).score,
            final(self).words_completed == old(self).words_completed,
            final(self).is_celebrating == old(self).is_celebrating,
            final(self).spec_recent() == old(self).spec_recent(),
            final(self).spec_attempts_since_change() == old(self).spec_attempts_since_change(),
            final(self).spec_bank() == old(self).spec_bank(),
            old(self).spec_bank().len() == 0 ==> *final(self) == *old(self),
            old(self).spec_bank().len() > 0 ==> final(self).typed_letters@ == Seq::<
                char,
            >::empty() && final(self).spec_wrong_attempts() == 0,
            old(self).spec_bank().len() > 0 && remaining_words(
                old(self).spec_bank(),
                old(self).spec_completed(),
            ).len() > 0 ==> final(self).spec_completed() == old(self).spec_completed() && final(self).current_word@ == remaining_words(
                old(self).spec_bank(),
                old(self).spec_completed(),
            )[pick as int % remaining_words(old(self).spec_bank(), old(self).spec_completed()).len() as int],
            old(self).spec_bank().len() > 0 && remaining_words(
                old(self).spec_bank(),
                old(self).spec_completed(),
            ).len() == 0 ==> final(self).spec_completed() == Seq::<Seq<char>>::empty() && final(self).current_word@ == old(self).spec_bank()[pick as int % old(self).spec_bank().len() as int],
    {
        let n = self.available_words.len();
        if n == 0 {
            return ;
        }
        let remaining = self.remaining_indices();
        if remaining.len() == 0 {
            self.completed_words = Vec::new();
            let idx = pick % n;
            self.current_word = clone_string(&self.available_words[idx]);
            proof {
                assert(views_of(self.available_words@)[idx as int] == self.current_word@);
                assert(views_of(self.completed_words@) =~= Seq::<Seq<char>>::empty());
            }
        } else {
            let m = remaining.len();
            let k = pick % m;
            let idx = remaining[k];
            self.current_word = clone_string(&self.available_words[idx]);
            proof {
                assert(words_at(views_of(self.available_words@), remaining@)[k as int]
                    == views_of(self.available_words@)[idx as int]);
                assert(views_of(self.available_words@)[idx as int] == self.current_word@);
            }
        }
        self.typed_letters = Vec::new();
        self.current_word_wrong_attempts = 0;
    }

    /// The bank indices of the words still to be quizzed, in bank order.
    fn remaining_indices(&self) -> (r: Vec<usize>)
        ensures
            words_at(self.spec_bank(), r@) == remaining_words(
                self.spec_bank(),
                self.spec_completed(),
            ),
            forall|k: int| 0 <= k < r@.len() ==> #[trigger] r@[k] < self.spec_bank().len(),
    {
        let ghost bank = self.spec_bank();
        let n = self.available_words.len();
        let mut remaining: Vec<usize> = Vec::new();
        let mut i: usize = 0;
        proof {
            assert(words_at(bank, remaining@) =~= remaining_words(
                bank.take(0),
                self.spec_completed(),
            ));
        }
        while i < n
            invariant
                i <= n == self.available_words@.len(),
                bank == self.spec_bank(),
                forall|k: int| 0 <= k < remaining@.len() ==> #[trigger] remaining@[k] < i,
                words_at(bank, remaining@) == remaining_words(
                    bank.take(i as int),
                    self.spec_completed(),
                ),
            decreases n - i,
        {
            let ghost pre_remaining = remaining@;
            let done_before = string_in_list(&self.completed_words, &self.available_words[i]);
            if !done_before {
                remaining.push(i);
            }
            i = i + 1;
            proof {
                let prefix = bank.take(i as int);
                assert(prefix.drop_last() =~= bank.take(i - 1));
                assert(prefix.last() == bank[i - 1]);
                assert(bank[i - 1] == self.available_words@[i - 1]@);
                if done_before {
                    assert(remaining@ == pre_remaining);
                } else {
                    assert(words_at(bank, remaining@) =~= words_at(bank, pre_remaining).push(
                        bank[i - 1],
                    ));
                }
            }
        }
        proof {
            assert(bank.take(n as int) =~= bank);
        }
        remaining
    }

    /// The typed input so far, joined and lower-cased.
    pub fn typed_text(&self) -> (r: String)
        ensures
            r@ == lower_seq(self.typed_letters@),
    {
        let mut r = String::new();
        let mut i: usize = 0;
        while i < self.typed_letters.len()
            invariant
                i <= self.typed_letters@.len(),
                r@ == lower_seq(self.typed_letters@.subrange(0, i as int)),
            decreases self.typed_letters@.len() - i,
        {
            push_char(&mut r, to_lower_char(self.typed_letters[i]));
            i = i + 1;
            assert(r@ =~= lower_seq(self.typed_letters@.subrange(0, i as int)));
        }
        assert(r@ =~= lower_seq(self.typed_letters@));
        r
    }

    /// Whether the typed input spells the target word, compared
    /// case-insensitively.
    pub fn check_if_correct(&self) -> (r: bool)
        ensures
            r == (lower_seq(self.typed_letters@) == lower_seq(self.current_word@)),
    {
        let typed = self.typed_text();
        let target = lower_string(self.current_word.as_str());
        typed == target
    }

    /// Registers a correct answer: bumps the score and completion
    /// counters, records a correct attempt in the window, adds the target
    /// word to the completed set, and starts the celebration pause.
    pub fn handle_correct_word(&mut self)
        requires
            old(self).wf(),
            old(self).score < usize::MAX,
            old(self).words_completed < usize::MAX,
            old(self).spec_attempts_since_change() < usize::MAX,
        ensures
            final(self).wf(),
            final(self).grade_level == old(self).grade_level,
            final(self).mode == old(self).mode,
            final(self).current_word == old(self).current_word,
            final(self).typed_letters == old(self).typed_letters,
            final(self).spec_bank() == old(self).spec_bank(),
            final(self).spec_wrong_attempts() == old(self).spec_wrong_attempts(),
            final(self).score == old(self).score + 1,
            final(self).words_completed == old(self).words_completed + 1,
            final(self).is_celebrating,
            final(self).spec_recent() == push_capped(old(self).spec_recent(), true),
            final(self).spec_attempts_since_change() == old(self).spec_attempts_since_change()
                + 1,
            forall|w: Seq<char>| #[trigger] seq_has(final(self).spec_completed(), w) <==> (seq_has(
                old(self).spec_completed(),
                w,
            ) || w == old(self).current_word@),
    {
        self.score = self.score + 1;
        self.words_completed = self.words_completed + 1;
        self.is_celebrating = true;
        self.record_attempt(true);
        let word = clone_string(&self.current_word);
        insert_string(&mut self.completed_words, word);
    }

    /// Registers a wrong answer: records it in the window and counts it
    /// against the current target word.
    pub fn handle_incorrect_word(&mut self)
        requires
            old(self).wf(),
            old(self).spec_attempts_since_change() < usize::MAX,
            old(self).spec_wrong_attempts() < usize::MAX,
        ensures
            final(self).wf(),
            final(self).grade_level == old(self).grade_level,
            final(self).mode == old(self).mode,
            final(self).current_word == old(self).current_word,
            final(self).typed_letters == old(self).typed_letters,
            final(self).spec_bank() == old(self).spec_bank(),
            final(self).score == old(self).score,
            final(self).words_completed == old(self).words_completed,
            final(self).is_celebrating == old(self).is_celebrating,
            final(self).spec_completed() == old(self).spec_completed(),
            final(self).spec_recent() == push_capped(old(self).spec_recent(), false),
            final(self).spec_attempts_since_change() == old(self).spec_attempts_since_change()
                + 1,
            final(self).spec_wrong_attempts() == old(self).spec_wrong_attempts() + 1,
    {
        self.record_attempt(false);
        self.current_word_wrong_attempts = self.current_word_wrong_attempts + 1;
    }

    /// Whether the hidden target word should be revealed as a hint: only
    /// in audio mode, and only after three wrong attempts at it.
    pub fn should_reveal_word(&self) -> (r: bool)
        ensures
            r == (self.mode == ChallengeMode::Audio && self.spec_wrong_attempts() >= 3),
    {
        self.mode == ChallengeMode::Audio && self.current_word_wrong_attempts >= 3
    }

    /// Records one attempt outcome into the bounded window.
    fn record_attempt(&mut self, correct: bool)
        requires
            old(self).wf(),
            old(self).spec_attempts_since_change() < usize::MAX,
        ensures
            final(self).wf(),
            final(self).spec_recent() == push_capped(old(self).spec_recent(), correct),
            final(self).spec_attempts_since_change() == old(self).spec_attempts_since_change()
                + 1,
            final(self).grade_level == old(self).grade_level,
            final(self).mode == old(self).mode,
            final(self).current_word == old(self).current_word,
            final(self).typed_letters == old(self).typed_letters,
            final(self).spec_bank() == old(self).spec_bank(),
            final(self).score == old(self).score,
            final(self).words_completed == old(self).words_completed,
            final(self).is_celebrating == old(self).is_celebrating,
            final(self).spec_completed() == old(self).spec_completed(),
            final(self).spec_wrong_attempts() == old(self).spec_wrong_attempts(),
    {
        self.recent_attempts.push(correct);
        if self.recent_attempts.len() > 10 {
            self.recent_attempts.remove(0);
            assert(self.recent_attempts@ =~= push_capped(old(self).spec_recent(), correct));
        }
        self.attempts_since_level_change = self.attempts_since_level_change + 1;
    }

    /// How many of the trailing attempts were correct.
    pub fn recent_correct_count(&self) -> (c: usize)
        ensures
            c == count_true(self.spec_recent()),
    {
        let mut c: usize = 0;
        let mut i: usize = 0;
        while i < self.recent_attempts.len()
            invariant
                i <= self.recent_attempts@.len(),
                c == count_true(self.recent_attempts@.subrange(0, i as int)),
                c <= i,
            decreases self.recent_attempts@.len() - i,
        {
            let ghost pre = self.recent_attempts@.subrange(0, i as int);
            if self.recent_attempts[i] {
                c = c + 1;
            }
            i = i + 1;
            assert(self.recent_attempts@.subrange(0, i as int).drop_last() =~= pre);
        }
        assert(self.recent_attempts@.subrange(0, self.recent_attempts@.len() as int)
            =~= self.recent_attempts@);
        c
    }

    /// Whether the session has earned a level raise: a full attempt
    /// window, ten or more attempts since the last change, and at least
    /// eight of the last ten correct.
    pub fn should_level_up(&self) -> (r: bool)
        requires
            self.wf(),
        ensures
            r == self.spec_should_level_up(),
    {
        if self.recent_attempts.len() >= 10 && self.attempts_since_level_change >= 10 {
            self.recent_correct_count() >= 8
        } else {
            false
        }
    }

    /// Whether the session has earned a level drop: a full attempt
    /// window, ten or more attempts since the last change, and fewer than
    /// five of the last ten correct.
    pub fn should_level_down(&self) -> (r: bool)
        requires
            self.wf(),
        ensures
            r == self.spec_should_level_down(),
    {
        if self.recent_attempts.len() >= 10 && self.attempts_since_level_change >= 10 {
            self.recent_correct_count() < 5
        } else {
            false
        }
    }

    /// Moves one level up the ladder when a successor exists, resetting
    /// the attempts-since-change counter; at the top the session is left
    /// unchanged.
    pub fn level_up(&mut self) -> (r: Option<GradeLevel>)
        ensures
            match old(self).grade_level.spec_next() {
                Some(l) => {
                    &&& final(self).grade_level == l
                    &&& final(self).spec_attempts_since_change() == 0
                    &&& r == Some(l)
                },
                None => {
                    &&& r is None
                    &&& *final(self) == *old(self)
                },
            },
            final(self).mode == old(self).mode,
            final(self).current_word == old(self).current_word,
            final(self).typed_letters == old(self).typed_letters,
            final(self).spec_bank() == old(self).spec_bank(),
            final(self).score == old(self).score,
            final(self).words_completed == old(self).words_completed,
            final(self).is_celebrating == old(self).is_celebrating,
            final(self).spec_recent() == old(self).spec_recent(),
            final(self).spec_completed() == old(self).spec_completed(),
            final(self).spec_wrong_attempts() == old(self).spec_wrong_attempts(),
    {
        match self.grade_level.next_level() {
            Some(l) => {
                self.grade_level = l;
                self.attempts_since_level_change = 0;
                Some(l)
            },
            None => None,
        }
    }

    /// Moves one level down the ladder when a predecessor exists,
    /// resetting the attempts-since-change counter; at the bottom the
    /// session is left unchanged.
    pub fn level_down(&mut self) -> (r: Option<GradeLevel>)
        ensures
            match old(self).grade_level.spec_previous() {
                Some(l) => {
                    &&& final(self).grade_level == l
                    &&& final(self).spec_attempts_since_change() == 0
                    &&& r == Some(l)
                },
                None => {
                    &&& r is None
                    &&& *final(self) == *old(self)
                },
            },
            final(self).mode == old(self).mode,
            final(self).current_word == old(self).current_word,
            final(self).typed_letters == old(self).typed_letters,
            final(self).spec_bank() == old(self).spec_bank(),
            final(self).score == old(self).score,
            final(self).words_completed == old(self).words_completed,
            final(self).is_celebrating == old(self).is_celebrating,
            final(self).spec_recent() == old(self).spec_recent(),
            final(self).spec_completed() == old(self).spec_completed(),
            final(self).spec_wrong_attempts() == old(self).spec_wrong_attempts(),
    {
        match self.grade_level.previous_level() {
            Some(l) => {
                self.grade_level = l;
                self.attempts_since_level_change = 0;
                Some(l)
            },
            None => None,
        }
    }

    /// Swaps in the word bank of a new level and selects a target word
    /// from it; score and streak counters are preserved. With an empty
    /// new bank only the swap happens: the selection is a no-op.
    pub fn update_word_list(&mut self, words: Vec<String>)
        requires
            old(self).wf(),
        ensures
            final(self).wf(),
            final(self).spec_bank() == views_of(words@),
            final(self).grade_level == old(self).grade_level,
            final(self).mode == old(self).mode,
            final(self).score == old(self).score,
            final(self).words_completed == old(self).words_completed,
            final(self).is_celebrating == old(self).is_celebrating,
            final(self).spec_recent() == old(self).spec_recent(),
            final(self).spec_attempts_since_change() == old(self).spec_attempts_since_change(),
            words@.len() > 0 ==> final(self).typed_letters@ == Seq::<char>::empty() && final(self).spec_wrong_attempts() == 0,
            words@.len() == 0 ==> final(self).current_word == old(self).current_word && final(self).spec_completed() == old(self).spec_completed() && final(self).typed_letters == old(self).typed_letters && final(self).spec_wrong_attempts() == old(self).spec_wrong_attempts(),
            words@.len() > 0 && !all_in(views_of(words@), old(self).spec_completed()) ==> final(self).spec_completed() == old(self).spec_completed() && seq_has(
                views_of(words@),
                final(self).current_word@,
            ) && !seq_has(old(self).spec_completed(), final(self).current_word@),
            words@.len() > 0 && all_in(views_of(words@), old(self).spec_completed()) ==> final(self).spec_completed() == Seq::<Seq<char>>::empty() && seq_has(
                views_of(words@),
                final(self).current_word@,
            ),
    {
        self.available_words = words;
        self.next_word();
    }

    /// What the leveling rule decides for this session: the successor
    /// when a raise is earned and one exists, the predecessor when a
    /// drop is earned and one exists, and no change otherwise — also at
    /// a ladder end, where the earned move has nowhere to go and the
    /// attempt counter is left running.
    pub open spec fn spec_level_change(self) -> Option<GradeLevel> {
        if self.spec_should_level_up() {
            self.grade_level.spec_next()
        } else if self.spec_should_level_down() {
            self.grade_level.spec_previous()
        } else {
            None
        }
    }

    /// The candidate bank after the leveling rule runs: the new level's
    /// list on a level change, the current bank otherwise.
    pub open spec fn spec_bank_after_round(self, loader: WordListLoader) -> Seq<Seq<char>> {
        match self.spec_level_change() {
            Some(l) => loader.spec_lists()[l.spec_index()],
            None => self.spec_bank(),
        }
    }

    /// Ends the celebration pause: evaluates the leveling rule first —
    /// on a level change the attempts counter resets and the provider's
    /// bank for the new level is swapped in — and then selects the next
    /// target word.
    pub fn finish_celebration(&mut self, loader: &WordListLoader)
        requires
            old(self).wf(),
            loader.wf(),
        ensures
            final(self).wf(),
            !final(self).is_celebrating,
            final(self).mode == old(self).mode,
            final(self).score == old(self).score,
            final(self).words_completed == old(self).words_completed,
            final(self).spec_recent() == old(self).spec_recent(),
            final(self).spec_bank() == old(self).spec_bank_after_round(*loader),
            match old(self).spec_level_change() {
                Some(l) => final(self).grade_level == l && final(self).spec_attempts_since_change() == 0,
                None => final(self).grade_level == old(self).grade_level && final(self).spec_attempts_since_change() == old(self).spec_attempts_since_change(),
            },
            old(self).spec_bank_after_round(*loader).len() == 0 ==> final(self).current_word == old(self).current_word && final(self).spec_completed() == old(self).spec_completed() && final(self).typed_letters == old(self).typed_letters && final(self).spec_wrong_attempts() == old(self).spec_wrong_attempts(),
            old(self).spec_bank_after_round(*loader).len() > 0 ==> final(self).typed_letters@ == Seq::<char>::empty() && final(self).spec_wrong_attempts() == 0,
            old(self).spec_bank_after_round(*loader).len() > 0 && !all_in(
                old(self).spec_bank_after_round(*loader),
                old(self).spec_completed(),
            ) ==> final(self).spec_completed() == old(self).spec_completed() && seq_has(
                old(self).spec_bank_after_round(*loader),
                final(self).current_word@,
            ) && !seq_has(old(self).spec_completed(), final(self).current_word@),
            old(self).spec_bank_after_round(*loader).len() > 0 && all_in(
                old(self).spec_bank_after_round(*loader),
                old(self).spec_completed(),
            ) ==> final(self).spec_completed() == Seq::<Seq<char>>::empty() && seq_has(
                old(self).spec_bank_after_round(*loader),
                final(self).current_word@,
            ),
    {
        self.is_celebrating = false;
        if self.should_level_up() {
            if let Some(new_level) = self.grade_level.next_level() {
                self.grade_level = new_level;
                self.attempts_since_level_change = 0;
                if let Some(words) = loader.get_words_for_grade(new_level) {
                    self.available_words = clone_word_list(words);
                }
            }
        } else if self.should_level_down() {
            if let Some(new_level) = self.grade_level.previous_level() {
                self.grade_level = new_level;
                self.attempts_since_level_change = 0;
                if let Some(words) = loader.get_words_for_grade(new_level) {
                    self.available_words = clone_word_list(words);
                }
            }
        }
        self.next_word();
    }

    /// Appends one typed letter; a no-op during the celebration pause.
    pub fn add_letter(&mut self, letter: char)
        ensures
            old(self).is_celebrating ==> *final(self) == *old(self),
            !old(self).is_celebrating ==> final(self).typed_letters@ == old(self).typed_letters@.push(letter),
            final(self).same_but_typed(*old(self)),
    {
        if self.is_celebrating {
            return ;
        }
        self.typed_letters.push(letter);
    }

    /// Removes the last typed letter, if any; a no-op during the
    /// celebration pause.
    pub fn remove_last_letter(&mut self)
        ensures
            old(self).is_celebrating ==> *final(self) == *old(self),
            !old(self).is_celebrating && old(self).typed_letters@.len() > 0 ==> final(self).typed_letters@ == old(self).typed_letters@.drop_last(),
            !old(self).is_celebrating && old(self).typed_letters@.len() == 0 ==> final(self).typed_letters@ == old(self).typed_letters@,
            final(self).same_but_typed(*old(self)),
    {
        if self.is_celebrating {
            return ;
        }
        self.typed_letters.pop();
    }

    /// Clears the typed input.
    pub fn clear_typed(&mut self)
        ensures
            final(self).typed_letters@ == Seq::<char>::empty(),
            final(self).same_but_typed(*old(self)),
    {
        self.typed_letters = Vec::new();
    }

    /// How many distinct words of this session's bank round have been
    /// completed.
    pub fn completed_count(&self) -> (c: usize)
        ensures
            c == self.spec_completed().len(),
    {
        self.completed_words.len()
    }
}

/// A level change is gated by the trailing window: either direction
/// needs exactly a full window of ten recorded attempts and at least ten
/// attempts since the last change; eight or more correct of the last ten
/// never lets the level drop, fewer than five correct never lets it
/// rise, and both directions can never hold at once.
pub proof fn lemma_leveling_gated(s: &WordChallenge)
    requires
        s.wf(),
    ensures
        s.spec_should_level_up() ==> s.spec_recent().len() == window_capacity()
            && s.spec_attempts_since_change() >= window_capacity(),
        s.spec_should_level_down() ==> s.spec_recent().len() == window_capacity()
            && s.spec_attempts_since_change() >= window_capacity(),
        count_true(s.spec_recent()) >= 8 ==> !s.spec_should_level_down(),
        count_true(s.spec_recent()) < 5 ==> !s.spec_should_level_up(),
        !(s.spec_should_level_up() && s.spec_should_level_down()),
{
}

/// Relies on `rand::random_range`: returns a value drawn uniformly from
/// the given nonempty range, so the result is below `n`.
#[verifier::external_body]
fn pick_below(n: usize) -> (r: usize)
    requires
        0 < n,
    ensures
        r < n,
{
    rand::random_range(0..n)
}

/// A copy of a word list; each `String::clone` is specified by vstd.
fn clone_word_list(ws: &Vec<String>) -> (r: Vec<String>)
    ensures
        r@ == ws@,
{
    let r = ws.clone();
    proof {
        assert forall|i: int| 0 <= i < ws@.len() implies r@[i] == ws@[i] by {
            assert(cloned::<String>(ws@[i], r@[i]));
        }
        assert(r@ =~= ws@);
    }
    r
}

/// A copy of the string; `String::clone` is specified by vstd.
fn clone_string(s: &String) -> (r: String)
    ensures
        r == s,
{
    s.clone()
}

/// Whether some string of `ws` reads as `w`.
fn string_in_list(ws: &Vec<String>, w: &String) -> (r: bool)
    ensures
        r == seq_has(views_of(ws@), w@),
{
    let mut i: usize = 0;
    while i < ws.len()
        invariant
            i <= ws@.len(),
            forall|k: int| 0 <= k < i ==> views_of(ws@)[k] != w@,
        decreases ws@.len() - i,
    {
        if eq_string(&ws[i], w) {
            assert(views_of(ws@)[i as int] == w@);
            return true;
        }
        i = i + 1;
    }
    false
}

/// Whether the two strings hold the same characters.
fn eq_string(a: &String, b: &String) -> (r: bool)
    ensures
        r == (a@ == b@),
{
    *a == *b
}

/// Adds a word to the completed set unless it already stands there.
fn insert_string(ws: &mut Vec<String>, w: String)
    ensures
        forall|x: Seq<char>| #[trigger] seq_has(views_of(final(ws)@), x) <==> (seq_has(
            views_of(old(ws)@),
            x,
        ) || x == w@),
{
    let dup = string_in_list(ws, &w);
    if !dup {
        let ghost old_views = views_of(ws@);
        ws.push(w);
        assert forall|x: Seq<char>| #[trigger] seq_has(views_of(ws@), x) implies (seq_has(
            old_views,
            x,
        ) || x == w@) by {
            let i = choose|i: int| 0 <= i < views_of(ws@).len() && views_of(ws@)[i] == x;
            if i < old_views.len() {
                assert(old_views[i] == x);
            }
        }
        assert forall|x: Seq<char>| (seq_has(old_views, x) || x == w@) implies #[trigger] seq_has(
            views_of(ws@),
            x,
        ) by {
            if seq_has(old_views, x) {
                let i = choose|i: int| 0 <= i < old_views.len() && old_views[i] == x;
                assert(views_of(ws@)[i] == x);
            } else {
                assert(views_of(ws@)[views_of(ws@).len() - 1] == x);
            }
        }
    }
}

} // verus!
