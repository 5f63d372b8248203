//! The word bank provider: one candidate word list per grade level,
//! parsed from raw list text (one word per line).

use vstd::prelude::*;
use crate::grade_level::GradeLevel;
use crate::text::{lines_spec, lower_seq, split_lines, str_chars, trim, trim_chars, views_of};

verus! {

/// One parsed line of a word list: lines are trimmed, empty ones are
/// dropped, the rest are lower-cased, and their order is kept.
pub open spec fn normalize_lines(ls: Seq<Seq<char>>) -> Seq<Seq<char>>
    decreases ls.len(),
{
    if ls.len() == 0 {
        Seq::<Seq<char>>::empty()
    } else if trim(ls.last()).len() > 0 {
        normalize_lines(ls.drop_last()).push(lower_seq(trim(ls.last())))
    } else {
        normalize_lines(ls.drop_last())
    }
}

/// What `load_words` parses out of raw list text.
pub open spec fn load_words_spec(src: Seq<char>) -> Seq<Seq<char>> {
    normalize_lines(lines_spec(src))
}

/// The per-grade word banks, in ladder order.
pub struct WordListLoader {
    words_by_grade: Vec<Vec<String>>,
}

impl WordListLoader {
    /// The banks as sequences of words, one per level in ladder order.
    pub closed spec fn spec_lists(self) -> Seq<Seq<Seq<char>>> {
        Seq::new(self.words_by_grade@.len(), |i: int| views_of(self.words_by_grade@[i]@))
    }

    /// Well-formedness: one bank per level of the ladder.
    pub open spec fn wf(self) -> bool {
        self.spec_lists().len() == 8
    }

    /// Builds the provider from one raw list text per grade level, in
    /// ladder order.
    pub fn new(sources: Vec<String>) -> (r: WordListLoader)
        requires
            sources@.len() == 8,
        ensures
            r.wf(),
            forall|i: int| 0 <= i < 8 ==> #[trigger] r.spec_lists()[i] == load_words_spec(
                sources@[i]@,
            ),
    {
        let mut words_by_grade: Vec<Vec<String>> = Vec::new();
        let mut i: usize = 0;
        while i < 8
            invariant
                i <= 8,
                sources@.len() == 8,
                words_by_grade@.len() == i,
                forall|k: int| 0 <= k < i ==> #[trigger] views_of(words_by_grade@[k]@)
                    == load_words_spec(sources@[k]@),
            decreases 8 - i,
        {
            words_by_grade.push(Self::load_words(sources[i].as_str()));
            i = i + 1;
        }
        let r = WordListLoader { words_by_grade };
        assert forall|i2: int| 0 <= i2 < 8 implies #[trigger] r.spec_lists()[i2]
            == load_words_spec(sources@[i2]@) by {
            assert(views_of(r.words_by_grade@[i2]@) == load_words_spec(sources@[i2]@));
        }
        r
    }

    /// Parses raw list text: one word per line, trimmed, lower-cased,
    /// empty lines dropped, order kept.
    pub fn load_words(content: &str) -> (r: Vec<String>)
        ensures
            views_of(r@) == load_words_spec(content@),
    {
        let chars = str_chars(content);
        let lines = split_lines(&chars);
        let mut r: Vec<String> = Vec::new();
        let mut i: usize = 0;
        proof {
            assert(views_of(lines@).take(0) =~= Seq::<Seq<char>>::empty());
        }
        while i < lines.len()
            invariant
                i <= lines@.len(),
                views_of(lines@) == lines_spec(content@),
                views_of(r@) == normalize_lines(views_of(lines@).take(i as int)),
            decreases lines@.len() - i,
        {
            let ghost prefix = views_of(lines@).take(i as int);
            let t = trim_chars(&lines[i]);
            assert(t@ == trim(views_of(lines@)[i as int]));
            if t.len() > 0 {
                let word = chars_to_lower_string(&t);
                let ghost old_views = views_of(r@);
                r.push(word);
                proof {
                    assert(views_of(r@) =~= old_views.push(lower_seq(trim(
                        views_of(lines@)[i as int],
                    ))));
                }
            }
            i = i + 1;
            proof {
                assert(views_of(lines@).take(i as int).drop_last() =~= prefix);
                assert(views_of(lines@).take(i as int).last() == views_of(lines@)[i - 1]);
            }
        }
        proof {
            assert(views_of(lines@).take(lines@.len() as int) =~= views_of(lines@));
        }
        r
    }

    /// The candidate word list for a grade; the provider holds one for
    /// every level.
    pub fn get_words_for_grade(&self, grade: GradeLevel) -> (r: Option<&Vec<String>>)
        requires
            self.wf(),
        ensures
            match r {
                Some(ws) => views_of(ws@) == self.spec_lists()[grade.spec_index()],
                None => false,
            },
    {
        let slot = grade_slot(grade);
        Some(&self.words_by_grade[slot])
    }

    /// How many candidate words the grade's bank holds.
    pub fn word_count_for_grade(&self, grade: GradeLevel) -> (c: usize)
        requires
            self.wf(),
        ensures
            c == self.spec_lists()[grade.spec_index()].len(),
    {
        let slot = grade_slot(grade);
        self.words_by_grade[slot].len()
    }
}

/// The vector slot of a grade level: its ladder position.
fn grade_slot(grade: GradeLevel) -> (r: usize)
    ensures
        r == grade.spec_index(),
{
    match grade {
        GradeLevel::PreK => 0,
        GradeLevel::Kindergarten => 1,
        GradeLevel::First => 2,
        GradeLevel::Second => 3,
        GradeLevel::Third => 4,
        GradeLevel::Fourth => 5,
        GradeLevel::Fifth => 6,
        GradeLevel::Sixth => 7,
    }
}

/// A lower-cased string of the given characters.
fn chars_to_lower_string(v: &Vec<char>) -> (r: String)
    ensures
        r@ == lower_seq(v@),
{
    let mut r = String::new();
    let mut i: usize = 0;
    while i < v.len()
        invariant
            i <= v@.len(),
            r@ == lower_seq(v@.subrange(0, i as int)),
        decreases v@.len() - i,
    {
        crate::text::push_char(&mut r, crate::text::to_lower_char(v[i]));
        i = i + 1;
        assert(r@ =~= lower_seq(v@.subrange(0, i as int)));
    }
    assert(r@ =~= lower_seq(v@));
    r
}

} // verus!
