//! The vocabulary store: two tiers of known words — a small curated tier and
//! a broader general tier — with case-insensitive membership testing, and the
//! greedy word-segmentation engine built on top of it.

use vstd::prelude::*;
use crate::text::{
    clean, clean_chars, is_letter, is_letter_char, lines_spec, lower_chars, lower_seq,
    split_lines, str_chars, trim, trim_chars, views_of,
};

verus! {

/// Whether some element of `ws` is the word `w`.
pub open spec fn seq_has(ws: Seq<Seq<char>>, w: Seq<char>) -> bool {
    exists|i: int| 0 <= i < ws.len() && ws[i] == w
}

/// Whether the curated source text yields `w`: some line of it, once
/// trimmed, is nonempty, is no comment, and lower-cases to `w`.
pub open spec fn curated_word_of(src: Seq<char>, w: Seq<char>) -> bool {
    exists|i: int| 0 <= i < lines_spec(src).len() && curated_line_yields(
        #[trigger] lines_spec(src)[i],
        w,
    )
}

/// Whether one line of the curated source yields the word `w`.
pub open spec fn curated_line_yields(line: Seq<char>, w: Seq<char>) -> bool {
    trim(line).len() > 0 && trim(line)[0] != '#' && w == lower_seq(trim(line))
}

/// Whether the general source text yields `w`: some line of it lower-cases
/// to `w`, which is nonempty and holds letters only.
pub open spec fn general_word_of(src: Seq<char>, w: Seq<char>) -> bool {
    exists|i: int| 0 <= i < lines_spec(src).len() && general_line_yields(
        #[trigger] lines_spec(src)[i],
        w,
    )
}

/// Whether one line of the general source yields the word `w`.
pub open spec fn general_line_yields(line: Seq<char>, w: Seq<char>) -> bool {
    lower_seq(line).len() > 0 && (forall|j: int|
        0 <= j < lower_seq(line).len() ==> is_letter(#[trigger] lower_seq(line)[j]))
        && w == lower_seq(line)
}

/// The concatenation of a sequence of words.
pub open spec fn concat_all(ws: Seq<Seq<char>>) -> Seq<char>
    decreases ws.len(),
{
    if ws.len() == 0 {
        Seq::<char>::empty()
    } else {
        ws[0] + concat_all(ws.skip(1))
    }
}

/// The immutable vocabulary store with its two tiers of words.
pub struct Dictionary {
    toddler_words: Vec<Vec<char>>,
    system_words: Vec<Vec<char>>,
}

impl Dictionary {
    /// The curated tier, as a sequence of words.
    pub closed spec fn curated(self) -> Seq<Seq<char>> {
        views_of(self.toddler_words@)
    }

    /// The general tier, as a sequence of words.
    pub closed spec fn general(self) -> Seq<Seq<char>> {
        views_of(self.system_words@)
    }

    /// Raw membership: `w` stands in either tier exactly as given.
    pub open spec fn contains_word(self, w: Seq<char>) -> bool {
        seq_has(self.curated(), w) || seq_has(self.general(), w)
    }

    /// What `is_valid_word` decides: the lower-cased query is nonempty and
    /// stands in the store.
    pub open spec fn spec_is_valid(self, w: Seq<char>) -> bool {
        w.len() > 0 && self.contains_word(lower_seq(w))
    }

    /// Builds the store from the curated word list and an optional general
    /// word source (pass empty text when the latter is unavailable).
    ///
    /// Curated lines are trimmed, comment lines (leading `#`) and empty
    /// lines are skipped, and the rest are lower-cased. General lines are
    /// lower-cased and kept only when nonempty and made of letters alone.
    /// Each tier stores a word once, however often its source repeats it.
    pub fn new(curated_source: &str, general_source: &str) -> (d: Dictionary)
        ensures
            forall|w: Seq<char>| #[trigger] seq_has(d.curated(), w) <==> curated_word_of(
                curated_source@,
                w,
            ),
            forall|w: Seq<char>| #[trigger] seq_has(d.general(), w) <==> general_word_of(
                general_source@,
                w,
            ),
    {
        let cchars = str_chars(curated_source);
        let clines = split_lines(&cchars);
        let mut toddler_words: Vec<Vec<char>> = Vec::new();
        let mut i: usize = 0;
        while i < clines.len()
            invariant
                i <= clines@.len(),
                views_of(clines@) == lines_spec(curated_source@),
                forall|w: Seq<char>| #[trigger] seq_has(views_of(toddler_words@), w)
                    <==> exists|k: int| 0 <= k < i && curated_line_yields(
                        #[trigger] views_of(clines@)[k],
                        w,
                    ),
            decreases clines@.len() - i,
        {
            let t = trim_chars(&clines[i]);
            let ghost line = views_of(clines@)[i as int];
            assert(t@ == trim(line));
            if t.len() > 0 && t[0] != '#' {
                let word = lower_chars(&t);
                insert_word(&mut toddler_words, word);
                assert forall|w: Seq<char>| #[trigger] seq_has(views_of(toddler_words@), w)
                    implies exists|k: int| 0 <= k < i + 1 && curated_line_yields(
                        #[trigger] views_of(clines@)[k],
                        w,
                    ) by {
                    if w == lower_seq(trim(line)) {
                        assert(curated_line_yields(views_of(clines@)[i as int], w));
                    }
                }
            } else {
                assert forall|w: Seq<char>|
                    (exists|k: int| 0 <= k < i + 1 && curated_line_yields(
                        #[trigger] views_of(clines@)[k],
                        w,
                    )) implies #[trigger] seq_has(views_of(toddler_words@), w) by {
                    let k = choose|k: int| 0 <= k < i + 1 && curated_line_yields(
                        views_of(clines@)[k],
                        w,
                    );
                    assert(k < i);
                }
            }
            i = i + 1;
        }
        let gchars = str_chars(general_source);
        let glines = split_lines(&gchars);
        let mut system_words: Vec<Vec<char>> = Vec::new();
        let mut j: usize = 0;
        while j < glines.len()
            invariant
                j <= glines@.len(),
                views_of(glines@) == lines_spec(general_source@),
                forall|w: Seq<char>| #[trigger] seq_has(views_of(system_words@), w)
                    <==> exists|k: int| 0 <= k < j && general_line_yields(
                        #[trigger] views_of(glines@)[k],
                        w,
                    ),
            decreases glines@.len() - j,
        {
            let word = lower_chars(&glines[j]);
            let ghost line = views_of(glines@)[j as int];
            assert(word@ == lower_seq(line));
            if word.len() > 0 && all_letters(&word) {
                insert_word(&mut system_words, word);
                assert forall|w: Seq<char>| #[trigger] seq_has(views_of(system_words@), w)
                    implies exists|k: int| 0 <= k < j + 1 && general_line_yields(
                        #[trigger] views_of(glines@)[k],
                        w,
                    ) by {
                    if w == lower_seq(line) {
                        assert(general_line_yields(views_of(glines@)[j as int], w));
                    }
                }
            } else {
                assert forall|w: Seq<char>|
                    (exists|k: int| 0 <= k < j + 1 && general_line_yields(
                        #[trigger] views_of(glines@)[k],
                        w,
                    )) implies #[trigger] seq_has(views_of(system_words@), w) by {
                    let k = choose|k: int| 0 <= k < j + 1 && general_line_yields(
                        views_of(glines@)[k],
                        w,
                    );
                    assert(k < j);
                }
            }
            j = j + 1;
        }
        Dictionary { toddler_words, system_words }
    }

    /// Checks whether a word stands in the store. Case-insensitive; the
    /// empty string is never a member. The query is read over the ASCII
    /// alphabet: only `A`-`Z` fold to lower case, and the stored words
    /// hold ASCII letters, so a word with characters of another alphabet
    /// is never a member.
    pub fn is_valid_word(&self, word: &str) -> (r: bool)
        ensures
            r == self.spec_is_valid(word@),
    {
        let wchars = str_chars(word);
        let lowered = lower_chars(&wchars);
        if lowered.len() == 0 {
            return false;
        }
        assert(lowered@.subrange(0, lowered@.len() as int) =~= lowered@);
        list_has_range(&self.toddler_words, &lowered, 0, lowered.len()) || list_has_range(
            &self.system_words,
            &lowered,
            0,
            lowered.len(),
        )
    }

    /// The length of the longest prefix of `t`, no longer than `n`, that is
    /// a stored word; zero when no prefix is one.
    pub open spec fn match_len(self, t: Seq<char>, n: int) -> int
        decreases n,
    {
        if n <= 0 {
            0
        } else if self.contains_word(t.take(n)) {
            n
        } else {
            self.match_len(t, n - 1)
        }
    }

    pub proof fn lemma_match_len_bounds(self, t: Seq<char>, n: int)
        ensures
            0 <= self.match_len(t, n) <= n || n < 0,
            self.match_len(t, n) > 0 ==> self.contains_word(t.take(self.match_len(t, n))),
        decreases n,
    {
        if n > 0 && !self.contains_word(t.take(n)) {
            self.lemma_match_len_bounds(t, n - 1);
        }
    }

    /// The greedy maximal-munch segmentation of a cleaned letter run: at
    /// each position take the longest stored word that starts there, or
    /// skip one character when none does.
    pub open spec fn greedy(self, t: Seq<char>) -> Seq<Seq<char>>
        decreases t.len(),
        via Self::greedy_decreases
    {
        if t.len() == 0 {
            Seq::<Seq<char>>::empty()
        } else {
            let n = self.match_len(t, t.len() as int);
            if n > 0 {
                seq![t.take(n)] + self.greedy(t.skip(n))
            } else {
                self.greedy(t.skip(1))
            }
        }
    }

    #[via_fn]
    proof fn greedy_decreases(self, t: Seq<char>) {
        self.lemma_match_len_bounds(t, t.len() as int);
    }

    /// What `parse_compound_words` returns: the greedy segmentation of the
    /// cleaned (lower-cased, letters-only) form of the text.
    pub open spec fn spec_segment(self, t: Seq<char>) -> Seq<Seq<char>> {
        self.greedy(clean(t))
    }

    proof fn lemma_match_len_is(self, t: Seq<char>, n: int, e: int)
        requires
            0 < e <= n,
            self.contains_word(t.take(e)),
            forall|k: int| e < k <= n ==> !self.contains_word(#[trigger] t.take(k)),
        ensures
            self.match_len(t, n) == e,
        decreases n,
    {
        if n > e {
            self.lemma_match_len_is(t, n - 1, e);
        }
    }

    proof fn lemma_match_len_none(self, t: Seq<char>, n: int)
        requires
            forall|k: int| 0 < k <= n ==> !self.contains_word(#[trigger] t.take(k)),
        ensures
            self.match_len(t, n) == 0,
        decreases n,
    {
        if n > 0 {
            self.lemma_match_len_none(t, n - 1);
        }
    }

    /// Finds, in order, the stored words that the greedy maximal-munch
    /// policy recognises inside the text, after stripping everything but
    /// letters and lower-casing. Repeats are kept; unmatched characters
    /// are dropped; an empty result is a valid outcome. A letter here is
    /// an ASCII letter: characters of other alphabets are stripped with
    /// the punctuation rather than kept as letters, so they neither
    /// match a word nor break adjacency around one.
    pub fn parse_compound_words(&self, text: &str) -> (r: Vec<String>)
        ensures
            views_of(r@) == self.spec_segment(text@),
    {
        let chars = str_chars(text);
        let cleaned = clean_chars(&chars);
        let n = cleaned.len();
        let mut found: Vec<String> = Vec::new();
        let mut pos: usize = 0;
        proof {
            assert(cleaned@.skip(0) =~= cleaned@);
            assert(views_of(found@) + self.greedy(cleaned@) =~= self.greedy(cleaned@));
        }
        while pos < n
            invariant
                pos <= n == cleaned@.len(),
                self.greedy(cleaned@) == views_of(found@) + self.greedy(
                    cleaned@.skip(pos as int),
                ),
            decreases n - pos,
        {
            let ghost suffix = cleaned@.skip(pos as int);
            let match_len = self.longest_match(&cleaned, pos);
            if match_len > 0 {
                proof {
                    assert(suffix.take(match_len as int) =~= cleaned@.subrange(
                        pos as int,
                        pos + match_len as int,
                    ));
                    assert(suffix.skip(match_len as int) =~= cleaned@.skip(
                        pos + match_len as int,
                    ));
                }
                let word = crate::text::range_to_string(&cleaned, pos, pos + match_len);
                let ghost old_found = views_of(found@);
                found.push(word);
                proof {
                    assert(views_of(found@) =~= old_found.push(suffix.take(match_len as int)));
                    assert(old_found.push(suffix.take(match_len as int)) + self.greedy(
                        suffix.skip(match_len as int),
                    ) =~= old_found + (seq![suffix.take(match_len as int)] + self.greedy(
                        suffix.skip(match_len as int),
                    )));
                }
                pos = pos + match_len;
            } else {
                proof {
                    assert(suffix.skip(1) =~= cleaned@.skip(pos + 1));
                }
                pos = pos + 1;
            }
        }
        proof {
            assert(cleaned@.skip(n as int) =~= Seq::<char>::empty());
            assert(views_of(found@) + self.greedy(cleaned@.skip(n as int)) =~= views_of(found@));
        }
        found
    }

    /// Every word the segmentation reports is a nonempty member of the
    /// vocabulary store.
    pub proof fn lemma_segment_words_in_vocabulary(self, t: Seq<char>)
        ensures
            forall|i: int| 0 <= i < self.spec_segment(t).len() ==> self.contains_word(
                #[trigger] self.spec_segment(t)[i],
            ) && self.spec_segment(t)[i].len() > 0,
    {
        self.lemma_greedy_words(clean(t));
    }

    proof fn lemma_greedy_words(self, u: Seq<char>)
        ensures
            forall|i: int| 0 <= i < self.greedy(u).len() ==> self.contains_word(
                #[trigger] self.greedy(u)[i],
            ) && self.greedy(u)[i].len() > 0,
        decreases u.len(),
    {
        if u.len() > 0 {
            let n = self.match_len(u, u.len() as int);
            self.lemma_match_len_bounds(u, u.len() as int);
            if n > 0 {
                assert(self.greedy(u) == seq![u.take(n)] + self.greedy(u.skip(n)));
                self.lemma_greedy_words(u.skip(n));
                assert forall|i: int| 0 <= i < self.greedy(u).len() implies self.contains_word(
                    #[trigger] self.greedy(u)[i],
                ) && self.greedy(u)[i].len() > 0 by {
                    if i == 0 {
                        assert(self.greedy(u)[0] == u.take(n));
                        assert(u.take(n).len() == n);
                    } else {
                        assert(self.greedy(u)[i] == self.greedy(u.skip(n))[i - 1]);
                    }
                }
            } else {
                assert(self.greedy(u) == self.greedy(u.skip(1)));
                self.lemma_greedy_words(u.skip(1));
            }
        }
    }

    /// Whether the greedy walk over `s` finds a stored word at every
    /// step, so that no character is skipped.
    pub open spec fn greedy_finds_words_throughout(self, s: Seq<char>) -> bool
        decreases s.len(),
        via Self::greedy_finds_words_decreases
    {
        if s.len() == 0 {
            true
        } else {
            let n = self.match_len(s, s.len() as int);
            if n > 0 {
                self.greedy_finds_words_throughout(s.skip(n))
            } else {
                false
            }
        }
    }

    #[via_fn]
    proof fn greedy_finds_words_decreases(self, s: Seq<char>) {
        self.lemma_match_len_bounds(s, s.len() as int);
    }

    /// When the greedy walk finds a word at every step, the reported
    /// words concatenate back to the whole cleaned text: the
    /// segmentation is a decomposition of it into vocabulary words.
    pub proof fn lemma_segment_covers(self, t: Seq<char>)
        requires
            self.greedy_finds_words_throughout(clean(t)),
        ensures
            concat_all(self.spec_segment(t)) == clean(t),
    {
        self.lemma_greedy_concat(clean(t));
    }

    proof fn lemma_greedy_concat(self, u: Seq<char>)
        requires
            self.greedy_finds_words_throughout(u),
        ensures
            concat_all(self.greedy(u)) == u,
        decreases u.len(),
    {
        if u.len() == 0 {
            assert(concat_all(self.greedy(u)) =~= u);
        } else {
            let n = self.match_len(u, u.len() as int);
            self.lemma_match_len_bounds(u, u.len() as int);
            self.lemma_greedy_concat(u.skip(n));
            let parts = self.greedy(u);
            assert(parts == seq![u.take(n)] + self.greedy(u.skip(n)));
            assert(parts[0] == u.take(n));
            assert(parts.skip(1) =~= self.greedy(u.skip(n)));
            assert(concat_all(parts) == u.take(n) + concat_all(self.greedy(u.skip(n))));
            assert(u.take(n) + u.skip(n) =~= u);
        }
    }

    /// When no substring of the cleaned text is a stored word, the
    /// segmentation is empty.
    pub proof fn lemma_segment_without_matches(self, t: Seq<char>)
        requires
            forall|i: int, j: int| 0 <= i < j <= clean(t).len() ==> !self.contains_word(
                #[trigger] clean(t).subrange(i, j),
            ),
        ensures
            self.spec_segment(t) == Seq::<Seq<char>>::empty(),
    {
        self.lemma_greedy_no_matches(clean(t));
    }

    proof fn lemma_greedy_no_matches(self, u: Seq<char>)
        requires
            forall|i: int, j: int| 0 <= i < j <= u.len() ==> !self.contains_word(
                #[trigger] u.subrange(i, j),
            ),
        ensures
            self.greedy(u) == Seq::<Seq<char>>::empty(),
        decreases u.len(),
    {
        if u.len() > 0 {
            assert forall|k: int| 0 < k <= u.len() implies !self.contains_word(
                #[trigger] u.take(k),
            ) by {
                assert(u.take(k) =~= u.subrange(0, k));
            }
            self.lemma_match_len_none(u, u.len() as int);
            assert forall|i: int, j: int| 0 <= i < j <= u.skip(1).len() implies !self.contains_word(
                #[trigger] u.skip(1).subrange(i, j),
            ) by {
                assert(u.skip(1).subrange(i, j) =~= u.subrange(i + 1, j + 1));
            }
            self.lemma_greedy_no_matches(u.skip(1));
        }
    }

    /// Two texts with the same cleaned form segment identically; with
    /// `lemma_clean_case_insensitive` and `lemma_clean_ignores_nonletter`
    /// this makes the segmentation invariant to letter case and to
    /// interleaved non-letter characters.
    pub proof fn lemma_segment_respects_cleaning(self, s: Seq<char>, t: Seq<char>)
        requires
            clean(s) == clean(t),
        ensures
            self.spec_segment(s) == self.spec_segment(t),
    {
    }

    /// Membership testing is case-insensitive, and the empty string is
    /// rejected under every vocabulary.
    pub proof fn lemma_is_valid_case_insensitive(self, w: Seq<char>)
        ensures
            self.spec_is_valid(lower_seq(w)) == self.spec_is_valid(w),
            !self.spec_is_valid(Seq::<char>::empty()),
    {
        crate::text::lemma_lower_seq_idempotent(w);
    }

    /// The longest stored word starting at `pos` in `v`, as the greedy
    /// policy measures it: its length, or zero when no word starts there.
    fn longest_match(&self, v: &Vec<char>, pos: usize) -> (m: usize)
        requires
            pos < v@.len(),
        ensures
            m == self.match_len(v@.skip(pos as int), v@.len() - pos),
            m <= v@.len() - pos,
    {
        let ghost suffix = v@.skip(pos as int);
        let vn = v.len();
        let mut k: usize = vn - pos;
        while k >= 1
            invariant
                pos < vn == v@.len(),
                k <= vn - pos,
                suffix == v@.skip(pos as int),
                forall|q: int| k < q <= v@.len() - pos ==> !self.contains_word(
                    #[trigger] suffix.take(q),
                ),
            decreases k,
        {
            proof {
                assert(suffix.take(k as int) =~= v@.subrange(pos as int, pos + k as int));
            }
            if self.contains_range(v, pos, pos + k) {
                proof {
                    self.lemma_match_len_is(suffix, suffix.len() as int, k as int);
                }
                return k;
            }
            k = k - 1;
        }
        proof {
            self.lemma_match_len_none(suffix, suffix.len() as int);
        }
        0
    }

    /// Whether the characters `v[lo..hi]` form a stored word of either tier.
    fn contains_range(&self, v: &Vec<char>, lo: usize, hi: usize) -> (r: bool)
        requires
            lo <= hi <= v@.len(),
        ensures
            r == self.contains_word(v@.subrange(lo as int, hi as int)),
    {
        list_has_range(&self.toddler_words, v, lo, hi) || list_has_range(
            &self.system_words,
            v,
            lo,
            hi,
        )
    }
}

/// Whether every character of `v` is a letter.
fn all_letters(v: &Vec<char>) -> (r: bool)
    ensures
        r == forall|j: int| 0 <= j < v@.len() ==> is_letter(#[trigger] v@[j]),
{
    let mut i: usize = 0;
    while i < v.len()
        invariant
            i <= v@.len(),
            forall|j: int| 0 <= j < i ==> is_letter(#[trigger] v@[j]),
        decreases v@.len() - i,
    {
        if !is_letter_char(v[i]) {
            return false;
        }
        i = i + 1;
    }
    true
}

/// Whether the characters `w` equal `v[lo..hi]`.
fn word_eq_range(w: &Vec<char>, v: &Vec<char>, lo: usize, hi: usize) -> (r: bool)
    requires
        lo <= hi <= v@.len(),
    ensures
        r == (w@ == v@.subrange(lo as int, hi as int)),
{
    if w.len() != hi - lo {
        return false;
    }
    let mut i: usize = 0;
    while i < w.len()
        invariant
            lo <= hi <= v@.len(),
            i <= w@.len(),
            w@.len() == hi - lo,
            forall|j: int| 0 <= j < i ==> w@[j] == v@.subrange(lo as int, hi as int)[j],
        decreases w@.len() - i,
    {
        if w[i] != v[lo + i] {
            return false;
        }
        i = i + 1;
    }
    assert(w@ =~= v@.subrange(lo as int, hi as int));
    true
}

/// Whether some word of `ws` equals `v[lo..hi]`.
fn list_has_range(ws: &Vec<Vec<char>>, v: &Vec<char>, lo: usize, hi: usize) -> (r: bool)
    requires
        lo <= hi <= v@.len(),
    ensures
        r == seq_has(views_of(ws@), v@.subrange(lo as int, hi as int)),
{
    let mut i: usize = 0;
    while i < ws.len()
        invariant
            lo <= hi <= v@.len(),
            i <= ws@.len(),
            forall|k: int| 0 <= k < i ==> views_of(ws@)[k] != v@.subrange(lo as int, hi as int),
        decreases ws@.len() - i,
    {
        if word_eq_range(&ws[i], v, lo, hi) {
            assert(views_of(ws@)[i as int] == v@.subrange(lo as int, hi as int));
            return true;
        }
        i = i + 1;
    }
    false
}

/// Adds a word to a tier unless the tier already holds it.
fn insert_word(ws: &mut Vec<Vec<char>>, w: Vec<char>)
    ensures
        forall|x: Seq<char>| #[trigger] seq_has(views_of(final(ws)@), x)
            <==> (seq_has(views_of(old(ws)@), x) || x == w@),
{
    let dup = list_has_full(ws, &w);
    if !dup {
        let ghost old_views = views_of(ws@);
        ws.push(w);
        assert forall|x: Seq<char>| #[trigger] seq_has(views_of(ws@), x) implies (seq_has(
            old_views,
            x,
        ) || x == w@) by {
            let i = choose|i: int| 0 <= i < views_of(ws@).len() && views_of(ws@)[i] == x;
            if i < old_views.len() {
                assert(old_views[i] == x);
            }
        }
        assert forall|x: Seq<char>| (seq_has(old_views, x) || x == w@) implies #[trigger] seq_has(
            views_of(ws@),
            x,
        ) by {
            if seq_has(old_views, x) {
                let i = choose|i: int| 0 <= i < old_views.len() && old_views[i] == x;
                assert(views_of(ws@)[i] == x);
            } else {
                assert(views_of(ws@)[views_of(ws@).len() - 1] == x);
            }
        }
    }
}

/// Whether some word of `ws` equals the whole of `w`.
fn list_has_full(ws: &Vec<Vec<char>>, w: &Vec<char>) -> (r: bool)
    ensures
        r == seq_has(views_of(ws@), w@),
{
    let n = w.len();
    let r = list_has_range(ws, w, 0, n);
    assert(w@.subrange(0, n as int) =~= w@);
    r
}

} // verus!
