//! Where the application keeps its files. A place is a folder that the environment names and the
//! names below it.
use vstd::prelude::*;

use crate::text;

verus! {

#[derive(Debug, Clone, Copy, PartialEq, Eq, Structural)]
pub enum Platform {
    MacOs,
    Windows,
    Other,
}

/// Where a place begins.
#[derive(Debug, Clone, Copy, PartialEq, Eq, Structural)]
pub enum Base {
    /// The folder that `HOME` names.
    Home,
    /// The folder that `USERPROFILE` names.
    UserProfile,
    /// The folder that `LOCALAPPDATA` names.
    LocalAppData,
    /// The folder that `XDG_CACHE_HOME` names.
    XdgCacheHome,
    /// The folder that `XDG_STATE_HOME` names.
    XdgStateHome,
    /// The folder that the application runs in.
    Here,
}

/// Which variables the environment sets.
pub struct Surroundings {
    pub platform: Platform,
    pub home: bool,
    pub user_profile: bool,
    pub local_app_data: bool,
    pub xdg_cache_home: bool,
    pub xdg_state_home: bool,
}

pub struct Place {
    pub base: Base,
    pub names: Vec<String>,
}

pub struct PlaceV {
    pub base: Base,
    pub names: Seq<Seq<char>>,
}

impl View for Place {
    type V = PlaceV;

    open spec fn view(&self) -> PlaceV {
        PlaceV { base: self.base, names: text::texts(self.names@) }
    }
}

/// The place of a name below this one.
pub open spec fn below(p: PlaceV, name: Seq<char>) -> PlaceV {
    PlaceV { base: p.base, names: p.names.push(name) }
}

pub open spec fn at(base: Base) -> PlaceV {
    PlaceV { base, names: seq![] }
}

impl Place {
    pub fn at(base: Base) -> (r: Self)
        ensures
            r@ == at(base),
    {
        let names: Vec<String> = Vec::new();
        proof {
            assert(text::texts(names@) =~= Seq::<Seq<char>>::empty());
        }
        Place { base, names }
    }

    pub fn join(self, name: &str) -> (r: Self)
        ensures
            r@ == below(self@, name@),
    {
        let mut names = self.names;
        let ghost before = names@;
        names.push(text::copy(name));
        proof {
            assert(text::texts(names@) =~= text::texts(before).push(name@));
        }
        Place { base: self.base, names }
    }
}

/// The user's own folder, where the environment names one.
pub open spec fn home_v(s: Surroundings) -> Option<Base> {
    if s.home {
        Some(Base::Home)
    } else if s.user_profile {
        Some(Base::UserProfile)
    } else {
        None
    }
}

pub fn home_dir(s: &Surroundings) -> (r: Option<Base>)
    ensures
        r == home_v(*s),
{
    if s.home {
        Some(Base::Home)
    } else if s.user_profile {
        Some(Base::UserProfile)
    } else {
        None
    }
}

/// A place below another has the same base and one more name, the last.
pub proof fn law_places(p: PlaceV, name: Seq<char>, base: Base, s: Surroundings)
    ensures
        below(p, name).base == p.base,
        below(p, name).names == p.names.push(name),
        at(base).base == base,
        at(base).names.len() == 0,
        s.home ==> home_v(s) == Some(Base::Home),
        !s.home && s.user_profile ==> home_v(s) == Some(Base::UserProfile),
        !s.home && !s.user_profile ==> home_v(s) is None,
{
}

} // verus!
