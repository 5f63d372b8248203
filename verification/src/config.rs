//! The application's persisted preferences, as plain values; reading and
//! writing them to disk is the surrounding application's concern.

use vstd::prelude::*;
use vstd::string::StringExecFns;
use crate::grade_level::GradeLevel;

verus! {

/// The persisted preferences: the feedback sound, the grade last chosen,
/// and whether words display in upper case.
#[derive(Debug, Clone)]
pub struct AppConfig {
    pub selected_sound: String,
    pub last_selected_grade: GradeLevel,
    pub use_uppercase: bool,
}

impl Default for AppConfig {
    /// The out-of-the-box preferences: the default sound, the bottom of
    /// the ladder, upper-case display.
    fn default() -> (r: AppConfig)
        ensures
            r.selected_sound@ == "Swoosh"@,
            r.last_selected_grade == GradeLevel::PreK,
            r.use_uppercase,
    {
        AppConfig {
            selected_sound: String::from_str("Swoosh"),
            last_selected_grade: GradeLevel::PreK,
            use_uppercase: true,
        }
    }
}

} // verus!
