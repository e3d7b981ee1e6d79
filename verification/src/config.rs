//! User preferences kept across sessions, and the choice of theme they lead to.
use vstd::prelude::*;

verus! {

/// User configuration that persists across sessions.
pub struct Config {
    /// The name of the selected theme.
    pub theme_name: Option<String>,
}

impl Default for Config {
    fn default() -> (r: Self)
        ensures
            r.theme_name is None,
    {
        Config { theme_name: None }
    }
}

/// The theme used when the saved one is missing.
pub open spec fn fallback_theme() -> Seq<char> {
    "One Dark"@
}

/// The first position of `name` among `names`.
pub open spec fn first_position(names: Seq<Seq<char>>, name: Seq<char>) -> Option<int>
    decreases names.len(),
{
    if names.len() == 0 {
        None
    } else if names[0] == name {
        Some(0)
    } else {
        match first_position(names.drop_first(), name) {
            Some(i) => Some(i + 1),
            None => None,
        }
    }
}

/// The theme to apply among those named `names`: the first one named `theme_name`, if
/// given and present, otherwise the first "One Dark", if present.
pub open spec fn theme_choice(names: Seq<Seq<char>>, theme_name: Option<Seq<char>>) -> Option<int> {
    match theme_name {
        Some(n) => match first_position(names, n) {
            Some(i) => Some(i),
            None => first_position(names, fallback_theme()),
        },
        None => first_position(names, fallback_theme()),
    }
}

/// The first position of `name` among `names`.
fn find_name(names: &Vec<String>, name: &str) -> (r: Option<usize>)
    ensures
        match r {
            Some(i) => first_position(names@.map_values(|s: String| s@), name@) == Some(i as int),
            None => first_position(names@.map_values(|s: String| s@), name@) is None,
        },
{
    let ghost nv = names@.map_values(|s: String| s@);
    let n = names.len();
    let mut i: usize = 0;
    assert(nv.skip(0) =~= nv);
    while i < n
        invariant
            n == names@.len(),
            nv == names@.map_values(|s: String| s@),
            i <= n,
            first_position(nv, name@) == match first_position(nv.skip(i as int), name@) {
                Some(k) => Some(k + i),
                None => None,
            },
        decreases n - i,
    {
        let c = crate::text::chars_of(names[i].as_str());
        assert(nv.skip(i as int)[0] == nv[i as int]);
        assert(nv.skip(i as int).drop_first() =~= nv.skip(i + 1));
        if crate::probe::text_eq(&c, name) {
            return Some(i);
        }
        i = i + 1;
    }
    assert(nv.skip(n as int).len() == 0);
    None
}

/// The position of the theme to apply (see [`theme_choice`]).
pub fn choose_theme(names: &Vec<String>, theme_name: Option<&str>) -> (r: Option<usize>)
    ensures
        match r {
            Some(i) => theme_choice(
                names@.map_values(|s: String| s@),
                match theme_name {
                    Some(n) => Some(n@),
                    None => None,
                },
            ) == Some(i as int),
            None => theme_choice(
                names@.map_values(|s: String| s@),
                match theme_name {
                    Some(n) => Some(n@),
                    None => None,
                },
            ) is None,
        },
{
    match theme_name {
        Some(n) => match find_name(names, n) {
            Some(i) => Some(i),
            None => find_name(names, "One Dark"),
        },
        None => find_name(names, "One Dark"),
    }
}

} // verus!
