//! Which profile is active.

use vstd::prelude::*;

use crate::config::Config;
use crate::text;

verus! {

/// The active profile, and when it was set.
#[derive(Debug)]
pub struct State {
    pub profile: String,
    pub updated: String,
}

#[verifier::ext_equal]
pub struct StateModel {
    pub profile: Seq<char>,
    pub updated: Seq<char>,
}

impl View for State {
    type V = StateModel;

    open spec fn view(&self) -> StateModel {
        StateModel { profile: self.profile@, updated: self.updated@ }
    }
}

/// The model of an optional state.
pub open spec fn opt_state(o: Option<State>) -> Option<StateModel> {
    match o {
        Some(s) => Some(s@),
        None => None,
    }
}

/// The state behind what the state file holds; without one that names a profile,
/// the default profile is active.
pub open spec fn loaded(file: Option<StateModel>, default_profile: Seq<char>) -> StateModel {
    if file is Some && file->Some_0.profile.len() > 0 {
        file->Some_0
    } else {
        StateModel { profile: default_profile, updated: Seq::empty() }
    }
}

impl State {
    /// The state behind what the state file holds, where it could be read.
    pub fn load(file: Option<State>, default_profile: &str) -> (r: State)
        ensures
            r@ == loaded(opt_state(file), default_profile@),
    {
        match file {
            Some(s) => {
                if !s.profile.as_str().is_empty() {
                    return s;
                }
            },
            None => {},
        }
        State { profile: default_profile.to_string(), updated: String::new() }
    }
}

/// What is said of a profile that does not exist.
pub open spec fn unknown_text(name: Seq<char>, names: Seq<Seq<char>>) -> Seq<char> {
    "unknown profile '"@ + name + "'. Available: "@ + text::quoted_list(names)
}

/// What the log says when a profile is set.
pub open spec fn set_line(name: Seq<char>) -> Seq<char> {
    "profile set -> "@ + name
}

/// The state to save so that `name` is the active profile, and what the log is
/// to say of it. It has to exist in `cfg`. `updated` is the time of the change.
pub fn set_profile(cfg: &Config, name: &str, updated: String) -> (r: Result<
    (State, String),
    String,
>)
    requires
        cfg.wf(),
    ensures
        r is Ok == cfg@.profiles.contains_key(name@),
        match r {
            Ok((s, line)) => s@ == (StateModel { profile: name@, updated: updated@ }) && line@
                == set_line(name@),
            Err(e) => e@ == unknown_text(name@, cfg.profiles.spec_names()),
        },
{
    if !cfg.profiles.contains_key(name) {
        let names = cfg.profiles.keys();
        return Err(
            "unknown profile '".to_string().concat(name).concat("'. Available: ").concat(
                text::quote_list(&names).as_str(),
            ),
        );
    }
    Ok(
        (
            State { profile: name.to_string(), updated },
            "profile set -> ".to_string().concat(name),
        ),
    )
}

/// A profile that was set is active when the state is loaded again, whatever the
/// default is.
pub proof fn a_set_profile_is_active(
    name: Seq<char>,
    updated: Seq<char>,
    default_profile: Seq<char>,
)
    requires
        name.len() > 0,
    ensures
        loaded(Some(StateModel { profile: name, updated }), default_profile).profile == name,
{
}

/// A state file that cannot be read, or names no profile, counts as none: the
/// default profile is active. One that names a profile is taken as it is.
pub proof fn a_state_without_a_profile_is_none(file: StateModel, default_profile: Seq<char>)
    ensures
        loaded(None, default_profile).profile == default_profile,
        loaded(None, default_profile).updated.len() == 0,
        file.profile.len() == 0 ==> loaded(Some(file), default_profile) == loaded(
            None,
            default_profile,
        ),
        file.profile.len() > 0 ==> loaded(Some(file), default_profile) == file,
{
}

/// What is said of a profile that was set names it, and what is said of one that
/// is not there names all that are.
pub proof fn what_is_said_names_the_profile(name: Seq<char>, names: Seq<Seq<char>>)
    ensures
        set_line(name) == "profile set -> "@ + name,
        unknown_text(name, names) == "unknown profile '"@ + name + "'. Available: "@
            + text::quoted_list(names),
{
}

} // verus!
