//! Profiles and the configuration that holds them: how each is built,
//! changed, looked up and written back as a document.

use vstd::prelude::*;
use crate::error::ConfigError;
use crate::keyed::{
    entries_map, keys_sorted, lemma_sorted_insert, lemma_sorted_lookup,
    lemma_sorted_slot, lemma_sorted_update,
};
use crate::text::{compare_text, push_char, text_lt};
use crate::value::{push_str, ToGitString, Value, ValueModel};

verus! {

/// A named set of dotted Git configuration keys and their values.
///
/// Its fields are kept sorted by key, each key once; two profiles are equal,
/// and ordered, by name alone.
#[derive(Debug)]
pub struct Profile {
    name: String,
    fields: Vec<(String, Value)>,
}

/// What a `Profile` stands for: its name and its fields in key order.
pub struct ProfileModel {
    pub name: Seq<char>,
    pub fields: Seq<(Seq<char>, ValueModel)>,
}

/// One line of a profile's document form.
pub open spec fn field_line(key: Seq<char>, v: ValueModel) -> Seq<char> {
    key + seq![' ', '=', ' '] + v.doc_form() + seq!['\n']
}

/// The lines of the fields, in order.
pub open spec fn field_lines(fields: Seq<(Seq<char>, ValueModel)>) -> Seq<char>
    decreases fields.len(),
{
    if fields.len() == 0 {
        Seq::empty()
    } else {
        field_lines(fields.drop_last()) + field_line(fields.last().0, fields.last().1)
    }
}

impl ProfileModel {
    /// A name that is not empty, and keys in strictly ascending order.
    pub open spec fn wf(self) -> bool {
        self.name.len() > 0 && keys_sorted(self.fields)
    }

    /// The profile's keys and their values.
    pub open spec fn field_map(self) -> Map<Seq<char>, ValueModel> {
        entries_map(self.fields)
    }

    /// The document form: a `[name]` header line, then one `key = value`
    /// line per field.
    pub open spec fn doc_form(self) -> Seq<char> {
        seq!['['] + self.name + seq![']', '\n'] + field_lines(self.fields)
    }
}

pub open spec fn field_model(e: (String, Value)) -> (Seq<char>, ValueModel) {
    (e.0@, e.1@)
}

/// How one field is handed to Git: `key=value`, the value in its Git form.
pub open spec fn git_assignment(key: Seq<char>, v: ValueModel) -> Seq<char> {
    key + seq!['='] + v.git_form()
}

impl View for Profile {
    type V = ProfileModel;

    closed spec fn view(&self) -> ProfileModel {
        ProfileModel { name: self.name@, fields: self.fields@.map_values(|e: (String, Value)| field_model(e)) }
    }
}

impl Profile {
    /// A profile with no fields; its name may not be empty.
    pub fn new(name: String) -> (r: Result<Profile, ConfigError>)
        ensures
            name@.len() == 0 ==> r == Err::<Profile, ConfigError>(ConfigError::EmptyProfileName),
            name@.len() > 0 ==> (r matches Ok(p) && p@.wf() && p@.name == name@ && p@.fields.len() == 0),
    {
        if name.unicode_len() == 0 {
            Err(ConfigError::EmptyProfileName)
        } else {
            let p = Profile { name, fields: Vec::new() };
            assert(p@.fields =~= Seq::<(Seq<char>, ValueModel)>::empty());
            Ok(p)
        }
    }

    /// The profile's name.
    pub fn name(&self) -> (r: &String)
        ensures
            r@ == self@.name,
    {
        &self.name
    }

    /// The fields, in key order.
    pub fn fields(&self) -> (r: &Vec<(String, Value)>)
        ensures
            r@.map_values(|e: (String, Value)| field_model(e)) == self@.fields,
    {
        &self.fields
    }

    /// Where `key` stands among the fields, or where it would go.
    fn slot(&self, key: &str) -> (r: (usize, bool))
        requires
            self@.wf(),
        ensures
            r.0 <= self@.fields.len(),
            r.1 ==> r.0 < self@.fields.len() && self@.fields[r.0 as int].0 == key@,
            !r.1 ==> forall|i: int| 0 <= i < r.0 ==> text_lt(#[trigger] self@.fields[i].0, key@),
            !r.1 ==> forall|i: int| r.0 <= i < self@.fields.len() ==> text_lt(key@, #[trigger] self@.fields[i].0),
    {
        let ghost s = self@.fields;
        let mut i: usize = 0;
        while i < self.fields.len()
            invariant
                s == self@.fields,
                self@.wf(),
                i <= s.len(),
                forall|j: int| 0 <= j < i ==> text_lt(#[trigger] s[j].0, key@),
            decreases s.len() - i,
        {
            let c = compare_text(self.fields[i].0.as_str(), key);
            assert(s[i as int].0 == self.fields@[i as int].0@);
            match c {
                core::cmp::Ordering::Less => {},
                core::cmp::Ordering::Equal => {
                    return (i, true);
                },
                core::cmp::Ordering::Greater => {
                    proof {
                        lemma_sorted_slot(s, i as int, key@);
                    }
                    return (i, false);
                },
            }
            i = i + 1;
        }
        (i, false)
    }

    /// The value of `key`, if the profile has it.
    pub fn get(&self, key: &str) -> (r: Option<&Value>)
        requires
            self@.wf(),
        ensures
            r is Some == self@.field_map().contains_key(key@),
            r matches Some(v) ==> v@ == self@.field_map()[key@],
    {
        let (i, found) = self.slot(key);
        proof {
            lemma_sorted_lookup(self@.fields);
        }
        if found {
            assert(self@.fields[i as int] == field_model(self.fields@[i as int]));
            Some(&self.fields[i].1)
        } else {
            proof {
                if self@.field_map().contains_key(key@) {
                    let j = choose|j: int| 0 <= j < self@.fields.len() && self@.fields[j].0 == key@;
                    if j < i {
                        assert(text_lt(self@.fields[j].0, key@));
                    } else {
                        assert(text_lt(key@, self@.fields[j].0));
                    }
                    crate::text::lemma_text_lt_irreflexive(key@);
                }
            }
            None
        }
    }

    /// The document form: a `[name]` header line, then one `key = value`
    /// line per field, in key order.
    pub fn to_string(&self) -> (r: String)
        ensures
            r@ == self@.doc_form(),
    {
        let mut out = String::new();
        push_char(&mut out, '[');
        push_str(&mut out, self.name.as_str());
        push_char(&mut out, ']');
        push_char(&mut out, '\n');
        let ghost head = out@;
        let ghost s = self@.fields;
        proof {
            reveal_strlit(" = ");
        }
        let mut i: usize = 0;
        while i < self.fields.len()
            invariant
                s == self@.fields,
                i <= s.len(),
                head == seq!['['] + self@.name + seq![']', '\n'],
                out@ == head + field_lines(s.take(i as int)),
            decreases s.len() - i,
        {
            let (k, v) = &self.fields[i];
            assert(s[i as int] == field_model(self.fields@[i as int]));
            push_str(&mut out, k.as_str());
            push_str(&mut out, " = ");
            let vs = v.to_string();
            push_str(&mut out, vs.as_str());
            push_char(&mut out, '\n');
            proof {
                reveal_strlit(" = ");
                assert(s.take(i + 1).drop_last() =~= s.take(i as int));
                assert(" = "@ =~= seq![' ', '=', ' ']);
                assert(out@ =~= head + field_lines(s.take(i + 1)));
            }
            i = i + 1;
        }
        assert(s.take(s.len() as int) =~= s);
        assert(out@ =~= self@.doc_form());
        out
    }

    /// The fields as pairs of key and Git form, in key order: one
    /// `git config` call's arguments each.
    pub fn git_pairs(&self) -> (r: Vec<(String, String)>)
        ensures
            r@.len() == self@.fields.len(),
            forall|i: int| 0 <= i < r@.len() ==> (#[trigger] r@[i]).0@ == self@.fields[i].0
                && r@[i].1@ == self@.fields[i].1.git_form(),
    {
        let ghost s = self@.fields;
        let mut r: Vec<(String, String)> = Vec::new();
        let mut i: usize = 0;
        while i < self.fields.len()
            invariant
                s == self@.fields,
                i <= s.len(),
                r@.len() == i,
                forall|j: int| 0 <= j < i ==> (#[trigger] r@[j]).0@ == s[j].0 && r@[j].1@ == s[j].1.git_form(),
            decreases s.len() - i,
        {
            let (k, v) = &self.fields[i];
            assert(s[i as int] == field_model(self.fields@[i as int]));
            r.push((k.clone(), v.to_git_string()));
            i = i + 1;
        }
        r
    }

    /// The arguments that hand the fields to one Git command: `-c` and
    /// `key=value` (Git form) per field, in key order.
    pub fn git_args(&self) -> (r: Vec<String>)
        ensures
            r@.len() == 2 * self@.fields.len(),
            forall|i: int| 0 <= i < self@.fields.len() ==> (#[trigger] r@[2 * i])@ == seq!['-', 'c'],
            forall|i: int| 0 <= i < self@.fields.len() ==> (#[trigger] r@[2 * i + 1])@ == git_assignment(self@.fields[i].0, self@.fields[i].1),
    {
        let ghost s = self@.fields;
        let mut r: Vec<String> = Vec::new();
        let mut i: usize = 0;
        proof {
            reveal_strlit("-c");
        }
        while i < self.fields.len()
            invariant
                s == self@.fields,
                i <= s.len(),
                r@.len() == 2 * i,
                forall|j: int| 0 <= j < i ==> (#[trigger] r@[2 * j])@ == seq!['-', 'c'],
                forall|j: int| 0 <= j < i ==> (#[trigger] r@[2 * j + 1])@ == git_assignment(s[j].0, s[j].1),
            decreases s.len() - i,
        {
            let (k, v) = &self.fields[i];
            assert(s[i as int] == field_model(self.fields@[i as int]));
            let mut a = k.clone();
            push_char(&mut a, '=');
            let g = v.to_git_string();
            push_str(&mut a, g.as_str());
            let flag = String::from_str("-c");
            proof {
                reveal_strlit("-c");
            }
            assert(flag@ =~= seq!['-', 'c']);
            let ghost r0 = r@;
            r.push(flag);
            r.push(a);
            i = i + 1;
            proof {
                assert forall|j: int| 0 <= j < i implies (#[trigger] r@[2 * j])@ == seq!['-', 'c'] by {
                    if j == i - 1 {
                        assert(r@[2 * j] == flag);
                    } else {
                        assert(r@[2 * j] == r0[2 * j]);
                    }
                }
                assert forall|j: int| 0 <= j < i implies (#[trigger] r@[2 * j + 1])@ == git_assignment(s[j].0, s[j].1) by {
                    if j == i - 1 {
                        assert(r@[2 * j + 1] == a);
                        assert(a@ =~= git_assignment(s[j].0, s[j].1));
                    } else {
                        assert(r@[2 * j + 1] == r0[2 * j + 1]);
                    }
                }
            }
        }
        r
    }

    /// Sets `key` to `value`, replacing any value it had.
    pub fn insert(&mut self, key: String, value: Value)
        requires
            old(self)@.wf(),
        ensures
            final(self)@.wf(),
            final(self)@.name == old(self)@.name,
            final(self)@.field_map() == old(self)@.field_map().insert(key@, value@),
    {
        let (i, found) = self.slot(key.as_str());
        let ghost k = key@;
        let ghost v = value@;
        if found {
            proof {
                lemma_sorted_update(old(self)@.fields, i as int, v);
            }
            self.fields.set(i, (key, value));
            assert(self@.fields =~= old(self)@.fields.update(i as int, (k, v)));
        } else {
            proof {
                lemma_sorted_insert(old(self)@.fields, i as int, k, v);
            }
            self.fields.insert(i, (key, value));
            assert(self@.fields =~= old(self)@.fields.insert(i as int, (k, v)));
        }
    }
}


impl PartialEq for Profile {
    /// Profiles are equal when their names are: the fields play no part.
    fn eq(&self, other: &Profile) -> (r: bool)
        ensures
            r == (self@.name == other@.name),
    {
        self.name == other.name
    }
}

impl vstd::std_specs::cmp::PartialEqSpecImpl for Profile {
    open spec fn obeys_eq_spec() -> bool {
        true
    }

    open spec fn eq_spec(&self, other: &Profile) -> bool {
        self@.name == other@.name
    }
}

impl Eq for Profile {
}

/// How two names compare.
pub open spec fn name_order(a: Seq<char>, b: Seq<char>) -> core::cmp::Ordering {
    if text_lt(a, b) {
        core::cmp::Ordering::Less
    } else if a == b {
        core::cmp::Ordering::Equal
    } else {
        core::cmp::Ordering::Greater
    }
}

impl PartialOrd for Profile {
    /// Profiles are ordered by name alone.
    fn partial_cmp(&self, other: &Profile) -> (r: Option<core::cmp::Ordering>)
        ensures
            r == Some(name_order(self@.name, other@.name)),
    {
        proof {
            crate::text::lemma_text_lt_total(self@.name, other@.name);
            crate::text::lemma_text_lt_irreflexive(self@.name);
        }
        Some(compare_text(self.name.as_str(), other.name.as_str()))
    }
}

impl vstd::std_specs::cmp::PartialOrdSpecImpl for Profile {
    open spec fn obeys_partial_cmp_spec() -> bool {
        true
    }

    open spec fn partial_cmp_spec(&self, other: &Profile) -> Option<core::cmp::Ordering> {
        Some(name_order(self@.name, other@.name))
    }
}

/// The root of the configuration: the active profile's name, if one is
/// chosen, and the profiles, each name once, sorted by name.
///
/// The active name need not belong to a profile: a document may name one
/// that it lacks, and a lookup then reports it.
#[derive(Debug)]
pub struct Config {
    active: Option<String>,
    profiles: Vec<Profile>,
}

/// What a `Config` stands for.
pub struct ConfigModel {
    pub active: Option<Seq<char>>,
    pub profiles: Seq<ProfileModel>,
}

/// The `active = "name"` line, or nothing.
pub open spec fn active_line(active: Option<Seq<char>>) -> Seq<char> {
    match active {
        Some(a) => seq!['a', 'c', 't', 'i', 'v', 'e', ' ', '=', ' ', '"'] + a + seq!['"', '\n'],
        None => Seq::empty(),
    }
}

/// The profiles' document forms, each after a blank line.
pub open spec fn profile_blocks(ps: Seq<ProfileModel>) -> Seq<char>
    decreases ps.len(),
{
    if ps.len() == 0 {
        Seq::empty()
    } else {
        profile_blocks(ps.drop_last()) + seq!['\n'] + ps.last().doc_form()
    }
}

pub open spec fn named(p: ProfileModel) -> (Seq<char>, Map<Seq<char>, ValueModel>) {
    (p.name, p.field_map())
}

impl ConfigModel {
    /// Each profile with its name and fields.
    pub open spec fn named_profiles(self) -> Seq<(Seq<char>, Map<Seq<char>, ValueModel>)> {
        self.profiles.map_values(|p: ProfileModel| named(p))
    }

    /// Every profile well formed, names strictly ascending.
    pub open spec fn wf(self) -> bool {
        &&& forall|i: int| 0 <= i < self.profiles.len() ==> (#[trigger] self.profiles[i]).wf()
        &&& keys_sorted(self.named_profiles())
    }

    /// Each profile's fields, by profile name.
    pub open spec fn profile_map(self) -> Map<Seq<char>, Map<Seq<char>, ValueModel>> {
        entries_map(self.named_profiles())
    }

    /// The document form: the `active` line if a profile is active, then
    /// each profile's form after a blank line, in name order.
    pub open spec fn doc_form(self) -> Seq<char> {
        active_line(self.active) + profile_blocks(self.profiles)
    }
}

impl View for Config {
    type V = ConfigModel;

    closed spec fn view(&self) -> ConfigModel {
        ConfigModel {
            active: match self.active {
                Some(a) => Some(a@),
                None => None,
            },
            profiles: self.profiles@.map_values(|p: Profile| p@),
        }
    }
}

impl Config {
    /// A configuration with no profile and none active.
    pub fn new() -> (r: Config)
        ensures
            r@.wf(),
            r@.active is None,
            r@.profiles.len() == 0,
    {
        let c = Config { active: None, profiles: Vec::new() };
        assert(c@.profiles =~= Seq::<ProfileModel>::empty());
        c
    }

    /// The active profile's name, if one is chosen.
    pub fn active(&self) -> (r: Option<&String>)
        ensures
            match r {
                Some(a) => self@.active == Some(a@),
                None => self@.active is None,
            },
    {
        match &self.active {
            Some(a) => Some(a),
            None => None,
        }
    }

    /// The profiles, in name order.
    pub fn profiles(&self) -> (r: &Vec<Profile>)
        ensures
            r@.map_values(|p: Profile| p@) == self@.profiles,
    {
        &self.profiles
    }

    /// Where the profile `name` stands, or where it would go.
    fn slot(&self, name: &str) -> (r: (usize, bool))
        requires
            self@.wf(),
        ensures
            r.0 <= self@.profiles.len(),
            r.1 ==> r.0 < self@.profiles.len() && self@.profiles[r.0 as int].name == name@,
            !r.1 ==> forall|i: int| 0 <= i < r.0 ==> text_lt(#[trigger] self@.named_profiles()[i].0, name@),
            !r.1 ==> forall|i: int| r.0 <= i < self@.profiles.len() ==> text_lt(name@, #[trigger] self@.named_profiles()[i].0),
    {
        let ghost s = self@.named_profiles();
        let mut i: usize = 0;
        while i < self.profiles.len()
            invariant
                s == self@.named_profiles(),
                self@.wf(),
                i <= s.len(),
                forall|j: int| 0 <= j < i ==> text_lt(#[trigger] s[j].0, name@),
            decreases s.len() - i,
        {
            let c = compare_text(self.profiles[i].name.as_str(), name);
            assert(s[i as int].0 == self.profiles@[i as int]@.name);
            match c {
                core::cmp::Ordering::Less => {},
                core::cmp::Ordering::Equal => {
                    return (i, true);
                },
                core::cmp::Ordering::Greater => {
                    proof {
                        lemma_sorted_slot(s, i as int, name@);
                    }
                    return (i, false);
                },
            }
            i = i + 1;
        }
        (i, false)
    }

    /// Sets the active name without looking it up among the profiles.
    pub(crate) fn set_active_name(&mut self, a: Option<String>)
        ensures
            final(self)@.profiles == old(self)@.profiles,
            final(self)@.active == match a {
                Some(s) => Some(s@),
                None => None::<Seq<char>>,
            },
    {
        self.active = a;
    }

    /// The profile named `name`, if there is one.
    pub fn profile(&self, name: &str) -> (r: Option<&Profile>)
        requires
            self@.wf(),
        ensures
            r is Some == self@.profile_map().contains_key(name@),
            r matches Some(p) ==> p@.wf() && p@.name == name@ && p@.field_map() == self@.profile_map()[name@],
    {
        let (i, found) = self.slot(name);
        let ghost s = self@.named_profiles();
        proof {
            lemma_sorted_lookup(s);
        }
        if found {
            assert(s[i as int] == named(self@.profiles[i as int]));
            assert(self@.profiles[i as int] == self.profiles@[i as int]@);
            assert(self@.profile_map().contains_key(s[i as int].0));
            assert(self@.profiles[i as int].wf());
            Some(&self.profiles[i])
        } else {
            proof {
                if self@.profile_map().contains_key(name@) {
                    let j = choose|j: int| 0 <= j < s.len() && s[j].0 == name@;
                    crate::text::lemma_text_lt_irreflexive(name@);
                    if j < i {
                        assert(text_lt(s[j].0, name@));
                    } else {
                        assert(text_lt(name@, s[j].0));
                    }
                }
            }
            None
        }
    }

    /// Adds `p`, replacing entirely any profile of the same name.
    pub fn insert_profile(&mut self, p: Profile)
        requires
            old(self)@.wf(),
            p@.wf(),
        ensures
            final(self)@.wf(),
            final(self)@.active == old(self)@.active,
            final(self)@.profile_map() == old(self)@.profile_map().insert(p@.name, p@.field_map()),
    {
        let (i, found) = self.slot(p.name.as_str());
        let ghost pm = p@;
        let ghost s = old(self)@.named_profiles();
        if found {
            proof {
                lemma_sorted_update(s, i as int, pm.field_map());
            }
            self.profiles.set(i, p);
            assert(self@.profiles =~= old(self)@.profiles.update(i as int, pm));
            assert(self@.named_profiles() =~= s.update(i as int, (s[i as int].0, pm.field_map())));
        } else {
            proof {
                lemma_sorted_insert(s, i as int, pm.name, pm.field_map());
            }
            self.profiles.insert(i, p);
            assert(self@.profiles =~= old(self)@.profiles.insert(i as int, pm));
            assert(self@.named_profiles() =~= s.insert(i as int, (pm.name, pm.field_map())));
        }
    }

    /// The document form: `active = "name"` first if a profile is active,
    /// then each profile's form after a blank line, in name order.
    pub fn to_string(&self) -> (r: String)
        ensures
            r@ == self@.doc_form(),
    {
        let mut out = String::new();
        match &self.active {
            Some(a) => {
                proof {
                    reveal_strlit("active = \"");
                }
                push_str(&mut out, "active = \"");
                push_str(&mut out, a.as_str());
                push_char(&mut out, '"');
                push_char(&mut out, '\n');
                assert(out@ =~= active_line(self@.active));
            },
            None => {
                assert(out@ =~= active_line(self@.active));
            },
        }
        let ghost head = out@;
        let ghost ps = self@.profiles;
        let mut i: usize = 0;
        while i < self.profiles.len()
            invariant
                ps == self@.profiles,
                i <= ps.len(),
                out@ == head + profile_blocks(ps.take(i as int)),
            decreases ps.len() - i,
        {
            push_char(&mut out, '\n');
            let block = self.profiles[i].to_string();
            push_str(&mut out, block.as_str());
            proof {
                assert(ps.take(i + 1).drop_last() =~= ps.take(i as int));
                assert(ps[i as int] == self.profiles@[i as int]@);
                assert(out@ =~= head + profile_blocks(ps.take(i + 1)));
            }
            i = i + 1;
        }
        assert(ps.take(ps.len() as int) =~= ps);
        out
    }

    /// Makes `name` the active profile; fails, changing nothing, where no
    /// profile has that name.
    pub fn set_active(&mut self, name: &str) -> (r: Result<(), ConfigError>)
        requires
            old(self)@.wf(),
        ensures
            final(self)@.wf(),
            final(self)@.profiles == old(self)@.profiles,
            old(self)@.profile_map().contains_key(name@) ==> r is Ok && final(self)@.active == Some(name@),
            !old(self)@.profile_map().contains_key(name@) ==> final(self)@ == old(self)@
                && (r matches Err(ConfigError::ProfileNotFound(n)) && n@ == name@),
    {
        if self.profile(name).is_some() {
            self.active = Some(String::from_str(name));
            Ok(())
        } else {
            Err(ConfigError::ProfileNotFound(String::from_str(name)))
        }
    }

    /// The profile that a command works on: the one named, else the active
    /// one.
    pub fn resolve(&self, name: Option<&str>) -> (r: Result<&Profile, ConfigError>)
        requires
            self@.wf(),
        ensures
            match (match name {
                Some(n) => Some(n@),
                None => self@.active,
            }) {
                None => r matches Err(ConfigError::NoProfileSelected),
                Some(w) => if self@.profile_map().contains_key(w) {
                    r matches Ok(p) && p@.wf() && p@.name == w && p@.field_map() == self@.profile_map()[w]
                } else {
                    r matches Err(ConfigError::ProfileNotFound(n)) && n@ == w
                },
            },
    {
        let wanted: &str = match name {
            Some(n) => n,
            None => match &self.active {
                Some(a) => a.as_str(),
                None => {
                    return Err(ConfigError::NoProfileSelected);
                },
            },
        };
        match self.profile(wanted) {
            Some(p) => Ok(p),
            None => Err(ConfigError::ProfileNotFound(String::from_str(wanted))),
        }
    }

    /// One line per profile, in name order: `* name` for the active one,
    /// two spaces and the name for the others.
    pub fn list_lines(&self) -> (r: Vec<String>)
        ensures
            r@.len() == self@.profiles.len(),
            forall|i: int| 0 <= i < r@.len() ==> (#[trigger] r@[i])@ == list_line(self@.active, self@.profiles[i].name),
    {
        let ghost ps = self@.profiles;
        let mut r: Vec<String> = Vec::new();
        let mut i: usize = 0;
        while i < self.profiles.len()
            invariant
                ps == self@.profiles,
                i <= ps.len(),
                r@.len() == i,
                forall|j: int| 0 <= j < i ==> (#[trigger] r@[j])@ == list_line(self@.active, ps[j].name),
            decreases ps.len() - i,
        {
            let name = &self.profiles[i].name;
            assert(ps[i as int].name == name@);
            let is_active = match &self.active {
                Some(a) => *a == *name,
                None => false,
            };
            let mut line = String::new();
            if is_active {
                push_char(&mut line, '*');
            } else {
                push_char(&mut line, ' ');
            }
            push_char(&mut line, ' ');
            push_str(&mut line, name.as_str());
            assert(line@ =~= list_line(self@.active, ps[i as int].name));
            r.push(line);
            i = i + 1;
        }
        r
    }
}

/// A line of the profile list: `* ` before the active profile's name, two
/// spaces before any other.
pub open spec fn list_line(active: Option<Seq<char>>, name: Seq<char>) -> Seq<char> {
    if active == Some(name) {
        seq!['*', ' '] + name
    } else {
        seq![' ', ' '] + name
    }
}

} // verus!
