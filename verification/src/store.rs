//! Where downloaded models are kept, and which of them is active.
use vstd::prelude::*;

use crate::json;
use crate::json::Json;
use crate::json::JsonV;
use crate::places;
use crate::places::Base;
use crate::places::Place;
use crate::places::PlaceV;
use crate::places::Platform;
use crate::places::Surroundings;
use crate::text;

verus! {

// ---- places ------------------------------------------------------------------------------------

/// A place that needs no variable.
pub open spec fn fallback() -> PlaceV {
    places::below(places::below(places::at(Base::Here), ".clif"@), "cache"@)
}

/// The cache of the application, where the platform has it.
pub open spec fn cache_v(s: Surroundings) -> PlaceV {
    match s.platform {
        Platform::MacOs => match places::home_v(s) {
            Some(h) => places::below(
                places::below(places::below(places::at(h), "Library"@), "Caches"@),
                "com.clif.pad"@,
            ),
            None => fallback(),
        },
        Platform::Windows => if s.local_app_data {
            places::below(places::at(Base::LocalAppData), "clif-pad"@)
        } else {
            fallback()
        },
        Platform::Other => if s.xdg_cache_home {
            places::below(places::at(Base::XdgCacheHome), "clif-pad"@)
        } else {
            match places::home_v(s) {
                Some(h) => places::below(
                    places::below(places::at(h), ".cache"@),
                    "clif-pad"@,
                ),
                None => fallback(),
            }
        },
    }
}

fn fallback_place() -> (r: Place)
    ensures
        r@ == fallback(),
{
    Place::at(Base::Here).join(".clif").join("cache")
}

pub fn cache_root(s: &Surroundings) -> (r: Place)
    ensures
        r@ == cache_v(*s),
{
    match s.platform {
        Platform::MacOs => match places::home_dir(s) {
            Some(h) => Place::at(h).join("Library").join("Caches").join("com.clif.pad"),
            None => fallback_place(),
        },
        Platform::Windows => if s.local_app_data {
            Place::at(Base::LocalAppData).join("clif-pad")
        } else {
            fallback_place()
        },
        Platform::Other => if s.xdg_cache_home {
            Place::at(Base::XdgCacheHome).join("clif-pad")
        } else {
            match places::home_dir(s) {
                Some(h) => Place::at(h).join(".cache").join("clif-pad"),
                None => fallback_place(),
            }
        },
    }
}

pub open spec fn models_v(s: Surroundings) -> PlaceV {
    places::below(cache_v(s), "models"@)
}

/// The folder that holds all downloaded models.
pub fn models_dir(s: &Surroundings) -> (r: Place)
    ensures
        r@ == models_v(*s),
{
    cache_root(s).join("models")
}

/// The folder of one model.
pub fn model_dir(s: &Surroundings, id: &str) -> (r: Place)
    ensures
        r@ == places::below(models_v(*s), safe_name(id@)),
{
    models_dir(s).join(sanitize(id).as_str())
}

/// The file of a model's weights.
pub fn model_file_path(s: &Surroundings, id: &str, file: &str) -> (r: Place)
    ensures
        r@ == places::below(places::below(models_v(*s), safe_name(id@)), safe_name(file@)),
{
    model_dir(s, id).join(sanitize(file).as_str())
}

/// The file that tells which model is active.
pub fn active_marker(s: &Surroundings) -> (r: Place)
    ensures
        r@ == places::below(models_v(*s), "active.json"@),
{
    models_dir(s).join("active.json")
}

// ---- names -------------------------------------------------------------------------------------

pub open spec fn is_safe(c: char) -> bool {
    'a' <= c <= 'z' || 'A' <= c <= 'Z' || '0' <= c <= '9' || c == '-' || c == '_' || c == '.'
}

pub open spec fn safe_char(c: char) -> char {
    if is_safe(c) {
        c
    } else {
        '_'
    }
}

/// The name with everything replaced that could lead out of a folder.
pub open spec fn safe_name(s: Seq<char>) -> Seq<char> {
    if s == ".."@ {
        "__"@
    } else {
        s.map_values(|c: char| safe_char(c))
    }
}

/// Keeps ids and file names from leading out of the models' folder.
pub fn sanitize(s: &str) -> (r: String)
    ensures
        r@ == safe_name(s@),
{
    if text::str_eq(s, "..") {
        return text::copy("__");
    }
    let v = text::to_chars(s);
    let mut out: Vec<char> = Vec::new();
    let mut i: usize = 0;
    while i < v.len()
        invariant
            v@ == s@,
            i == out@.len(),
            i <= v@.len(),
            forall|j: int| 0 <= j < i ==> #[trigger] out@[j] == safe_char(s@[j]),
        decreases v.len() - i,
    {
        let c = v[i];
        let safe = ('a' <= c && c <= 'z') || ('A' <= c && c <= 'Z') || ('0' <= c && c <= '9') || c
            == '-' || c == '_' || c == '.';
        if safe {
            out.push(c);
        } else {
            out.push('_');
        }
        i = i + 1;
    }
    proof {
        assert(out@ =~= s@.map_values(|c: char| safe_char(c)));
    }
    text::from_chars(&out)
}

// ---- the active model --------------------------------------------------------------------------

/// What the marker holds for a model.
pub open spec fn marker_v(id: Seq<char>) -> JsonV {
    JsonV::Object(json::no_members().insert("id"@, JsonV::Text(id)))
}

/// The model that a marker names.
pub open spec fn active_in_v(content: Result<JsonV, Seq<char>>) -> Option<Seq<char>> {
    match content {
        Ok(v) => v.get_text("id"@),
        Err(_) => None,
    }
}

/// The content of the marker for a model, from which the model is read back.
pub fn active_body(id: &str) -> (r: String)
    ensures
        r@ == json::printed(marker_v(id@)),
        active_in_v(json::parsed(r@)) == Some(id@),
{
    let j = Json::object().with_str("id", id);
    proof {
        assert(j@ == marker_v(id@));
        assert(json::is_flat(j@));
    }
    json::print(&j)
}

/// The model that the value in the marker names.
pub fn active_of(v: &Json) -> (r: Option<String>)
    ensures
        match r {
            Some(s) => v@.get_text("id"@) == Some(s@),
            None => v@.get_text("id"@) is None,
        },
{
    match v.get_str("id") {
        Some(s) => Some(text::copy(s)),
        None => None,
    }
}

/// The model that the content of the marker names.
pub fn read_active(content: &str) -> (r: Option<String>)
    ensures
        match r {
            Some(s) => active_in_v(json::parsed(content@)) == Some(s@),
            None => active_in_v(json::parsed(content@)) is None,
        },
{
    match json::parse(content) {
        Ok(v) => active_of(&v),
        Err(_) => None,
    }
}

/// What is to be done with the marker.
#[derive(Debug, PartialEq)]
pub enum MarkerChange {
    Write(String),
    Remove,
}

/// Makes a model the active one, or none.
pub fn write_active(id: Option<&str>) -> (r: MarkerChange)
    ensures
        match id {
            Some(s) => r matches MarkerChange::Write(body) && body@ == json::printed(marker_v(s@))
                && active_in_v(json::parsed(body@)) == Some(s@),
            None => r is Remove,
        },
{
    match id {
        Some(s) => MarkerChange::Write(active_body(s)),
        None => MarkerChange::Remove,
    }
}

// ---- laws ----------------------------------------------------------------------------------------

/// Whatever a model or a file is called, it stays right below its folder: its name holds no
/// separator and does not lead up.
pub proof fn law_names_stay_inside(s: Seq<char>)
    ensures
        forall|i: int| 0 <= i < safe_name(s).len() ==> is_safe(#[trigger] safe_name(s)[i]),
        safe_name(s) != ".."@,
{
    reveal_strlit("..");
    reveal_strlit("__");
    if s == ".."@ {
        assert(safe_name(s)[0] == '_');
        assert(".."@[0] == '.');
    } else if safe_name(s) == ".."@ {
        let mapped = s.map_values(|c: char| safe_char(c));
        assert(mapped == ".."@);
        assert(mapped.len() == s.len());
        assert(".."@.len() == 2);
        assert(mapped[0] == safe_char(s[0]));
        assert(mapped[1] == safe_char(s[1]));
        assert(s =~= ".."@);
    }
}

/// A name that is safe is kept.
pub proof fn law_safe_names_are_kept(s: Seq<char>)
    requires
        forall|i: int| 0 <= i < s.len() ==> is_safe(#[trigger] s[i]),
        s != ".."@,
    ensures
        safe_name(s) == s,
{
    assert(safe_name(s) =~= s);
}

/// A name keeps its length, and every character that is safe keeps its place; any other becomes an
/// underscore.
pub proof fn law_names_change_little(s: Seq<char>, i: int)
    requires
        0 <= i < s.len(),
    ensures
        safe_name(s).len() == s.len(),
        s != ".."@ && ('a' <= s[i] <= 'z' || 'A' <= s[i] <= 'Z' || '0' <= s[i] <= '9' || s[i] == '-'
            || s[i] == '_' || s[i] == '.') ==> safe_name(s)[i] == s[i],
        !('a' <= s[i] <= 'z' || 'A' <= s[i] <= 'Z' || '0' <= s[i] <= '9' || s[i] == '-' || s[i]
            == '_' || s[i] == '.') ==> safe_name(s)[i] == '_',
{
    reveal_strlit("..");
    reveal_strlit("__");
    assert(".."@.len() == 2 && "__"@.len() == 2);
    assert(".."@[0] == '.' && ".."@[1] == '.');
}

/// Where the cache is: below the folder that the platform names for it, else below the user's own,
/// else below the one that the application runs in.
pub proof fn law_cache_places(s: Surroundings)
    ensures
        s.platform == Platform::MacOs && s.home ==> cache_v(s).base == Base::Home && cache_v(
            s,
        ).names == seq!["Library"@, "Caches"@, "com.clif.pad"@],
        s.platform == Platform::MacOs && !s.home && s.user_profile ==> cache_v(s).base
            == Base::UserProfile,
        s.platform == Platform::Windows && s.local_app_data ==> cache_v(s).base
            == Base::LocalAppData && cache_v(s).names == seq!["clif-pad"@],
        s.platform == Platform::Other && s.xdg_cache_home ==> cache_v(s).base == Base::XdgCacheHome
            && cache_v(s).names == seq!["clif-pad"@],
        s.platform == Platform::Other && !s.xdg_cache_home && s.home ==> cache_v(s).base
            == Base::Home && cache_v(s).names == seq![".cache"@, "clif-pad"@],
        s.platform == Platform::Windows && !s.local_app_data ==> cache_v(s).base == Base::Here
            && cache_v(s).names == seq![".clif"@, "cache"@],
        s.platform != Platform::Windows && !s.home && !s.user_profile && !s.xdg_cache_home
            ==> cache_v(s).base == Base::Here && cache_v(s).names == seq![".clif"@, "cache"@],
        models_v(s).base == cache_v(s).base,
        models_v(s).names == cache_v(s).names + seq!["models"@],
{
    assert(models_v(s).names =~= cache_v(s).names + seq!["models"@]);
    assert(fallback().names =~= seq![".clif"@, "cache"@]);
    assert(cache_v(s).names =~= seq!["Library"@, "Caches"@, "com.clif.pad"@] || cache_v(s).names
        =~= seq!["clif-pad"@] || cache_v(s).names =~= seq![".cache"@, "clif-pad"@] || cache_v(
        s,
    ).names =~= seq![".clif"@, "cache"@]);
}

/// The marker of a model names that model.
pub proof fn law_marker_names_the_model(id: Seq<char>, v: JsonV, e: Seq<char>)
    ensures
        active_in_v(Ok(marker_v(id))) == Some(id),
        active_in_v(Ok(v)) == v.get_text("id"@),
        active_in_v(Err(e)) is None,
{
}

} // verus!
