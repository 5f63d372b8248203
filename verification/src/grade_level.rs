//! The grade ladder: a fixed, totally ordered enumeration of eight
//! difficulty levels with clamped successor and predecessor lookups.

use vstd::prelude::*;

verus! {

/// The eight difficulty levels, ordered from easiest to hardest by their
/// declaration order.
#[derive(Debug, Clone, Copy, PartialEq, Eq, Hash, Structural)]
pub enum GradeLevel {
    PreK,
    Kindergarten,
    First,
    Second,
    Third,
    Fourth,
    Fifth,
    Sixth,
}

impl GradeLevel {
    /// The level's position on the ladder, counted from zero.
    pub open spec fn spec_index(self) -> int {
        match self {
            GradeLevel::PreK => 0,
            GradeLevel::Kindergarten => 1,
            GradeLevel::First => 2,
            GradeLevel::Second => 3,
            GradeLevel::Third => 4,
            GradeLevel::Fourth => 5,
            GradeLevel::Fifth => 6,
            GradeLevel::Sixth => 7,
        }
    }

    /// The next level up the ladder, when one exists.
    pub open spec fn spec_next(self) -> Option<GradeLevel> {
        match self {
            GradeLevel::PreK => Some(GradeLevel::Kindergarten),
            GradeLevel::Kindergarten => Some(GradeLevel::First),
            GradeLevel::First => Some(GradeLevel::Second),
            GradeLevel::Second => Some(GradeLevel::Third),
            GradeLevel::Third => Some(GradeLevel::Fourth),
            GradeLevel::Fourth => Some(GradeLevel::Fifth),
            GradeLevel::Fifth => Some(GradeLevel::Sixth),
            GradeLevel::Sixth => None,
        }
    }

    /// The next level down the ladder, when one exists.
    pub open spec fn spec_previous(self) -> Option<GradeLevel> {
        match self {
            GradeLevel::PreK => None,
            GradeLevel::Kindergarten => Some(GradeLevel::PreK),
            GradeLevel::First => Some(GradeLevel::Kindergarten),
            GradeLevel::Second => Some(GradeLevel::First),
            GradeLevel::Third => Some(GradeLevel::Second),
            GradeLevel::Fourth => Some(GradeLevel::Third),
            GradeLevel::Fifth => Some(GradeLevel::Fourth),
            GradeLevel::Sixth => Some(GradeLevel::Fifth),
        }
    }

    /// Every level, in ladder order.
    pub fn all() -> (r: Vec<GradeLevel>)
        ensures
            r@ == seq![
                GradeLevel::PreK,
                GradeLevel::Kindergarten,
                GradeLevel::First,
                GradeLevel::Second,
                GradeLevel::Third,
                GradeLevel::Fourth,
                GradeLevel::Fifth,
                GradeLevel::Sixth,
            ],
            r@.len() == 8,
            forall|i: int| 0 <= i < 8 ==> #[trigger] r@[i].spec_index() == i,
    {
        let r = vec![
            GradeLevel::PreK,
            GradeLevel::Kindergarten,
            GradeLevel::First,
            GradeLevel::Second,
            GradeLevel::Third,
            GradeLevel::Fourth,
            GradeLevel::Fifth,
            GradeLevel::Sixth,
        ];
        assert(r@ =~= seq![
            GradeLevel::PreK,
            GradeLevel::Kindergarten,
            GradeLevel::First,
            GradeLevel::Second,
            GradeLevel::Third,
            GradeLevel::Fourth,
            GradeLevel::Fifth,
            GradeLevel::Sixth,
        ]);
        r
    }

    /// What `display_name` returns for this level.
    pub open spec fn spec_display_name(self) -> Seq<char> {
        match self {
            GradeLevel::PreK => "Pre-K"@,
            GradeLevel::Kindergarten => "Kindergarten"@,
            GradeLevel::First => "1st Grade"@,
            GradeLevel::Second => "2nd Grade"@,
            GradeLevel::Third => "3rd Grade"@,
            GradeLevel::Fourth => "4th Grade"@,
            GradeLevel::Fifth => "5th Grade"@,
            GradeLevel::Sixth => "6th Grade"@,
        }
    }

    /// The level's full display name.
    pub fn display_name(&self) -> (r: &'static str)
        ensures
            r@ == self.spec_display_name(),
    {
        match self {
            GradeLevel::PreK => "Pre-K",
            GradeLevel::Kindergarten => "Kindergarten",
            GradeLevel::First => "1st Grade",
            GradeLevel::Second => "2nd Grade",
            GradeLevel::Third => "3rd Grade",
            GradeLevel::Fourth => "4th Grade",
            GradeLevel::Fifth => "5th Grade",
            GradeLevel::Sixth => "6th Grade",
        }
    }

    /// What `short_name` returns for this level.
    pub open spec fn spec_short_name(self) -> Seq<char> {
        match self {
            GradeLevel::PreK => "Pre-K"@,
            GradeLevel::Kindergarten => "K"@,
            GradeLevel::First => "1st"@,
            GradeLevel::Second => "2nd"@,
            GradeLevel::Third => "3rd"@,
            GradeLevel::Fourth => "4th"@,
            GradeLevel::Fifth => "5th"@,
            GradeLevel::Sixth => "6th"@,
        }
    }

    /// The level's abbreviated display name.
    pub fn short_name(&self) -> (r: &'static str)
        ensures
            r@ == self.spec_short_name(),
    {
        match self {
            GradeLevel::PreK => "Pre-K",
            GradeLevel::Kindergarten => "K",
            GradeLevel::First => "1st",
            GradeLevel::Second => "2nd",
            GradeLevel::Third => "3rd",
            GradeLevel::Fourth => "4th",
            GradeLevel::Fifth => "5th",
            GradeLevel::Sixth => "6th",
        }
    }

    /// The successor on the ladder, or `None` at the top: traversal never
    /// wraps.
    pub fn next_level(&self) -> (r: Option<GradeLevel>)
        ensures
            r == self.spec_next(),
    {
        match self {
            GradeLevel::PreK => Some(GradeLevel::Kindergarten),
            GradeLevel::Kindergarten => Some(GradeLevel::First),
            GradeLevel::First => Some(GradeLevel::Second),
            GradeLevel::Second => Some(GradeLevel::Third),
            GradeLevel::Third => Some(GradeLevel::Fourth),
            GradeLevel::Fourth => Some(GradeLevel::Fifth),
            GradeLevel::Fifth => Some(GradeLevel::Sixth),
            GradeLevel::Sixth => None,
        }
    }

    /// The predecessor on the ladder, or `None` at the bottom: traversal
    /// never wraps.
    pub fn previous_level(&self) -> (r: Option<GradeLevel>)
        ensures
            r == self.spec_previous(),
    {
        match self {
            GradeLevel::PreK => None,
            GradeLevel::Kindergarten => Some(GradeLevel::PreK),
            GradeLevel::First => Some(GradeLevel::Kindergarten),
            GradeLevel::Second => Some(GradeLevel::First),
            GradeLevel::Third => Some(GradeLevel::Second),
            GradeLevel::Fourth => Some(GradeLevel::Third),
            GradeLevel::Fifth => Some(GradeLevel::Fourth),
            GradeLevel::Sixth => Some(GradeLevel::Fifth),
        }
    }
}

impl Default for GradeLevel {
    /// The starting level: the bottom of the ladder.
    fn default() -> (r: GradeLevel)
        ensures
            r == GradeLevel::PreK,
    {
        GradeLevel::PreK
    }
}

/// The ladder is clamped and steps one position at a time: a successor
/// exists exactly below the top, a predecessor exactly above the bottom,
/// and each moves the position by one, so repeated steps can never pass
/// either end.
pub proof fn lemma_ladder_clamped()
    ensures
        GradeLevel::Sixth.spec_next() is None,
        GradeLevel::PreK.spec_previous() is None,
        forall|l: GradeLevel| (#[trigger] l.spec_next()) is Some <==> l.spec_index() < 7,
        forall|l: GradeLevel| (#[trigger] l.spec_previous()) is Some <==> l.spec_index() > 0,
        forall|l: GradeLevel| l.spec_next() is Some ==> (#[trigger] l.spec_next())->0.spec_index()
            == l.spec_index() + 1,
        forall|l: GradeLevel| l.spec_previous() is Some ==> (
        #[trigger] l.spec_previous())->0.spec_index() == l.spec_index() - 1,
{
}

} // verus!
