//! The curated list of feedback sounds: a name, a display name, and a
//! bundled file path for each, with lookup by name falling back to the
//! default sound.

use vstd::prelude::*;
use vstd::string::StringExecFns;

verus! {

/// One selectable sound.
#[derive(Debug, Clone)]
pub struct SystemSound {
    pub name: String,
    pub display_name: String,
    pub path: String,
}

/// Whether a name denotes one of the curated sounds.
pub open spec fn is_known_sound(n: Seq<char>) -> bool {
    ||| n == "Swoosh"@
    ||| n == "Swish"@
    ||| n == "Tri-Tone"@
    ||| n == "Chime"@
    ||| n == "Bell"@
    ||| n == "Ding"@
}

/// The bundled file path of a known sound.
pub open spec fn path_for(n: Seq<char>) -> Seq<char> {
    if n == "Swoosh"@ {
        "../shared/sounds/Swoosh.wav"@
    } else if n == "Swish"@ {
        "../shared/sounds/Swish.wav"@
    } else if n == "Tri-Tone"@ {
        "../shared/sounds/Tri-Tone.wav"@
    } else if n == "Chime"@ {
        "../shared/sounds/Chime.wav"@
    } else if n == "Bell"@ {
        "../shared/sounds/Bell.wav"@
    } else {
        "../shared/sounds/Ding.wav"@
    }
}

/// The name of the sound at a slot of the curated list.
pub open spec fn sound_name_at(i: int) -> Seq<char> {
    if i == 0 {
        "Swoosh"@
    } else if i == 1 {
        "Swish"@
    } else if i == 2 {
        "Tri-Tone"@
    } else if i == 3 {
        "Chime"@
    } else if i == 4 {
        "Bell"@
    } else {
        "Ding"@
    }
}

/// The six sound names are pairwise distinct.
proof fn lemma_distinct_names()
    ensures
        "Swoosh"@ != "Swish"@ && "Swoosh"@ != "Tri-Tone"@ && "Swoosh"@ != "Chime"@ && "Swoosh"@
            != "Bell"@ && "Swoosh"@ != "Ding"@,
        "Swish"@ != "Tri-Tone"@ && "Swish"@ != "Chime"@ && "Swish"@ != "Bell"@ && "Swish"@
            != "Ding"@,
        "Tri-Tone"@ != "Chime"@ && "Tri-Tone"@ != "Bell"@ && "Tri-Tone"@ != "Ding"@,
        "Chime"@ != "Bell"@ && "Chime"@ != "Ding"@,
        "Bell"@ != "Ding"@,
{
    reveal_strlit("Swoosh");
    reveal_strlit("Swish");
    reveal_strlit("Tri-Tone");
    reveal_strlit("Chime");
    reveal_strlit("Bell");
    reveal_strlit("Ding");
    assert("Swoosh"@.len() == 6);
    assert("Swish"@.len() == 5);
    assert("Tri-Tone"@.len() == 8);
    assert("Chime"@.len() == 5);
    assert("Bell"@.len() == 4);
    assert("Ding"@.len() == 4);
    assert("Swish"@[0] == 'S');
    assert("Chime"@[0] == 'C');
    assert("Bell"@[0] == 'B');
    assert("Ding"@[0] == 'D');
}

/// One curated sound; its display name reads as its name.
fn sound(name: &str, path: &str) -> (r: SystemSound)
    ensures
        r.name@ == name@,
        r.display_name@ == name@,
        r.path@ == path@,
{
    SystemSound {
        name: String::from_str(name),
        display_name: String::from_str(name),
        path: String::from_str(path),
    }
}

/// The curated list of sounds, in its fixed order.
pub fn sounds() -> (r: Vec<SystemSound>)
    ensures
        r@.len() == 6,
        forall|i: int| 0 <= i < 6 ==> (#[trigger] r@[i].name)@ == sound_name_at(i),
        forall|i: int| 0 <= i < 6 ==> (#[trigger] r@[i].display_name)@ == sound_name_at(i),
        forall|i: int| 0 <= i < 6 ==> (#[trigger] r@[i].path)@ == path_for(sound_name_at(i)),
{
    proof {
        lemma_distinct_names();
    }
    let mut r: Vec<SystemSound> = Vec::new();
    r.push(sound("Swoosh", "../shared/sounds/Swoosh.wav"));
    r.push(sound("Swish", "../shared/sounds/Swish.wav"));
    r.push(sound("Tri-Tone", "../shared/sounds/Tri-Tone.wav"));
    r.push(sound("Chime", "../shared/sounds/Chime.wav"));
    r.push(sound("Bell", "../shared/sounds/Bell.wav"));
    r.push(sound("Ding", "../shared/sounds/Ding.wav"));
    proof {
        assert(r@[0].path@ == path_for(sound_name_at(0)));
        assert(r@[1].path@ == path_for(sound_name_at(1)));
        assert(r@[2].path@ == path_for(sound_name_at(2)));
        assert(r@[3].path@ == path_for(sound_name_at(3)));
        assert(r@[4].path@ == path_for(sound_name_at(4)));
        assert(r@[5].path@ == path_for(sound_name_at(5)));
    }
    r
}

/// The default sound, the first of the curated list.
pub fn default_sound() -> (r: SystemSound)
    ensures
        r.name@ == "Swoosh"@,
        r.display_name@ == "Swoosh"@,
        r.path@ == path_for("Swoosh"@),
{
    sound("Swoosh", "../shared/sounds/Swoosh.wav")
}

/// Looks a sound up by its exact name.
pub fn get_sound_by_name(name: &str) -> (r: Option<SystemSound>)
    ensures
        match r {
            Some(s) => is_known_sound(name@) && s.name@ == name@ && s.display_name@ == name@
                && s.path@ == path_for(name@),
            None => !is_known_sound(name@),
        },
{
    proof {
        lemma_distinct_names();
    }
    if crate::text::str_eq(name, "Swoosh") {
        Some(sound("Swoosh", "../shared/sounds/Swoosh.wav"))
    } else if crate::text::str_eq(name, "Swish") {
        Some(sound("Swish", "../shared/sounds/Swish.wav"))
    } else if crate::text::str_eq(name, "Tri-Tone") {
        Some(sound("Tri-Tone", "../shared/sounds/Tri-Tone.wav"))
    } else if crate::text::str_eq(name, "Chime") {
        Some(sound("Chime", "../shared/sounds/Chime.wav"))
    } else if crate::text::str_eq(name, "Bell") {
        Some(sound("Bell", "../shared/sounds/Bell.wav"))
    } else if crate::text::str_eq(name, "Ding") {
        Some(sound("Ding", "../shared/sounds/Ding.wav"))
    } else {
        None
    }
}

/// The file path for a sound name, or the default sound's path for an
/// unknown name.
pub fn get_sound_path(name: &str) -> (r: String)
    ensures
        is_known_sound(name@) ==> r@ == path_for(name@),
        !is_known_sound(name@) ==> r@ == path_for("Swoosh"@),
{
    match get_sound_by_name(name) {
        Some(s) => s.path,
        None => {
            let d = default_sound();
            d.path
        },
    }
}

} // verus!
