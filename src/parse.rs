//! Reading a configuration from a document tree: the top-level `active`
//! string, and one profile per top-level table, its nested tables
//! flattened into dotted keys.

use vstd::prelude::*;
use crate::config::{Config, Profile};
use crate::error::ConfigError;
use crate::keyed::{entries_map, insert_all, lemma_insert_all_concat};
use crate::text::{compare_text, push_char};
use crate::toml_doc::{read_toml, set_toml_string, toml_tree, toml_with_string};
use crate::tree::{child_key, color_of, colors_of, flat_entries, leaf_value, Node};
use crate::value::{push_str, Color, Value, ValueModel};

verus! {

/// The key that names the active profile.
pub open spec fn active_key() -> Seq<char> {
    seq!['a', 'c', 't', 'i', 'v', 'e']
}

/// The active profile's name that top-level entries give: the string under
/// the last `active` key; none if that is not a string, or there is none.
pub open spec fn active_of(entries: Seq<(String, Node)>) -> Option<Seq<char>>
    decreases entries.len(),
{
    if entries.len() == 0 {
        None
    } else if entries.last().0@ == active_key() {
        match entries.last().1 {
            Node::String(s) => Some(s@),
            _ => None,
        }
    } else {
        active_of(entries.drop_last())
    }
}

/// The profiles that top-level entries give, by name: one per table other
/// than `active`, a later one replacing an earlier one of the same name;
/// or the first error met.
pub open spec fn profiles_of(entries: Seq<(String, Node)>) -> Result<
    Map<Seq<char>, Map<Seq<char>, ValueModel>>,
    ConfigError,
>
    decreases entries.len(),
{
    if entries.len() == 0 {
        Ok(Map::empty())
    } else {
        match profiles_of(entries.drop_last()) {
            Err(e) => Err(e),
            Ok(m) => {
                let name = entries.last().0@;
                if name == active_key() {
                    Ok(m)
                } else {
                    match entries.last().1 {
                        Node::Table(t) => if name.len() == 0 {
                            Err(ConfigError::EmptyProfileName)
                        } else {
                            match flat_entries(None, t@) {
                                Err(e) => Err(e),
                                Ok(pairs) => Ok(m.insert(name, entries_map(pairs))),
                            }
                        },
                        _ => Ok(m),
                    }
                }
            },
        }
    }
}

/// The active name and the profiles that a document tree gives, or why it
/// gives none.
pub open spec fn config_of_tree(root: Node) -> Result<
    (Option<Seq<char>>, Map<Seq<char>, Map<Seq<char>, ValueModel>>),
    ConfigError,
> {
    match root {
        Node::Table(t) => match profiles_of(t@) {
            Ok(m) => Ok((active_of(t@), m)),
            Err(e) => Err(e),
        },
        _ => Err(ConfigError::NotATable),
    }
}

pub open spec fn prefix_view(prefix: Option<&String>) -> Option<Seq<char>> {
    match prefix {
        Some(p) => Some(p@),
        None => None,
    }
}

proof fn lemma_colors_none_extends(items: Seq<Node>, i: int)
    requires
        0 <= i <= items.len(),
        colors_of(items.take(i)) is None,
    ensures
        colors_of(items) is None,
    decreases items.len() - i,
{
    if i < items.len() {
        assert(items.take(i + 1).drop_last() =~= items.take(i));
        lemma_colors_none_extends(items, i + 1);
    } else {
        assert(items.take(i) =~= items);
    }
}

proof fn lemma_flat_err_extends(prefix: Option<Seq<char>>, entries: Seq<(String, Node)>, i: int)
    requires
        0 <= i <= entries.len(),
        flat_entries(prefix, entries.take(i)) is Err,
    ensures
        flat_entries(prefix, entries) == flat_entries(prefix, entries.take(i)),
    decreases entries.len() - i,
{
    if i < entries.len() {
        assert(entries.take(i + 1).drop_last() =~= entries.take(i));
        lemma_flat_err_extends(prefix, entries, i + 1);
    } else {
        assert(entries.take(i) =~= entries);
    }
}

proof fn lemma_profiles_err_extends(entries: Seq<(String, Node)>, i: int)
    requires
        0 <= i <= entries.len(),
        profiles_of(entries.take(i)) is Err,
    ensures
        profiles_of(entries) == profiles_of(entries.take(i)),
    decreases entries.len() - i,
{
    if i < entries.len() {
        assert(entries.take(i + 1).drop_last() =~= entries.take(i));
        lemma_profiles_err_extends(entries, i + 1);
    } else {
        assert(entries.take(i) =~= entries);
    }
}

/// The value of a node other than a table.
fn leaf_of(n: &Node) -> (r: Result<Value, ConfigError>)
    requires
        !(n is Table),
    ensures
        match leaf_value(*n) {
            Ok(v) => r matches Ok(x) && x@ == v,
            Err(e) => r == Err::<Value, ConfigError>(e),
        },
{
    match n {
        Node::Array(items) => {
            let mut cs: Vec<Color> = Vec::new();
            let mut i: usize = 0;
            while i < items.len()
                invariant
                    i <= items@.len(),
                    *n matches Node::Array(a) && a@ == items@,
                    colors_of(items@.take(i as int)) == Some(cs@.map_values(|c: Color| c@)),
                decreases items@.len() - i,
            {
                assert(items@.take(i + 1).drop_last() =~= items@.take(i as int));
                let ghost before = cs@;
                match &items[i] {
                    Node::String(s) => {
                        cs.push(Color::String(s.clone()));
                    },
                    Node::Integer(k) => {
                        let c = Color::Number(#[verifier::truncate] (*k as u32));
                        cs.push(c);
                    },
                    _ => {
                        proof {
                            assert(color_of(items@[i as int]) is None);
                            assert(items@.take(i + 1).last() == items@[i as int]);
                            lemma_colors_none_extends(items@, i + 1);
                        }
                        return Err(ConfigError::NonColorArray);
                    },
                }
                assert(cs@.map_values(|c: Color| c@) =~= before.map_values(|c: Color| c@).push(color_of(items@[i as int])->0));
                i = i + 1;
            }
            assert(items@.take(items@.len() as int) =~= items@);
            Ok(Value::ColorArray(cs))
        },
        Node::Boolean(b) => Ok(Value::Boolean(*b)),
        Node::Integer(k) => Ok(Value::Integer(*k)),
        Node::String(s) => Ok(Value::String(s.clone())),
        _ => Err(ConfigError::UnsupportedScalar),
    }
}

/// Adds to `p` the fields that `entries` flatten to below `prefix`, or
/// reports the first error met.
fn flatten_into(prefix: Option<&String>, entries: &Vec<(String, Node)>, p: &mut Profile) -> (r: Result<(), ConfigError>)
    requires
        old(p)@.wf(),
    ensures
        final(p)@.wf(),
        final(p)@.name == old(p)@.name,
        match flat_entries(prefix_view(prefix), entries@) {
            Ok(pairs) => r is Ok && final(p)@.field_map() == insert_all(old(p)@.field_map(), pairs),
            Err(e) => r == Err::<(), ConfigError>(e),
        },
    decreases entries@,
{
    let ghost pre = prefix_view(prefix);
    let ghost m0 = p@.field_map();
    let mut i: usize = 0;
    assert(entries@.take(0) =~= Seq::<(String, Node)>::empty());
    while i < entries.len()
        invariant
            i <= entries@.len(),
            pre == prefix_view(prefix),
            p@.wf(),
            p@.name == old(p)@.name,
            m0 == old(p)@.field_map(),
            flat_entries(pre, entries@.take(i as int)) is Ok,
            p@.field_map() == insert_all(m0, flat_entries(pre, entries@.take(i as int))->Ok_0),
        decreases entries@.len() - i,
    {
        let ghost front = flat_entries(pre, entries@.take(i as int))->Ok_0;
        assert(entries@.take(i + 1).drop_last() =~= entries@.take(i as int));
        assert(entries@.take(i + 1).last() == entries@[i as int]);
        let (k, n) = &entries[i];
        let key = match prefix {
            Some(pf) => {
                let mut key = pf.clone();
                push_char(&mut key, '.');
                push_str(&mut key, k.as_str());
                key
            },
            None => k.clone(),
        };
        assert(key@ =~= child_key(pre, k@));
        match n {
            Node::Table(t) => {
                let ghost m1 = p@.field_map();
                let sub = flatten_into(Some(&key), t, p);
                match sub {
                    Ok(()) => {
                        proof {
                            let back = flat_entries(Some(key@), t@)->Ok_0;
                            lemma_insert_all_concat(m0, front, back);
                        }
                    },
                    Err(e) => {
                        proof {
                            lemma_flat_err_extends(pre, entries@, i + 1);
                        }
                        return Err(e);
                    },
                }
            },
            _ => {
                match leaf_of(n) {
                    Ok(v) => {
                        let ghost vm = v@;
                        p.insert(key, v);
                        proof {
                            let pairs = front.push((child_key(pre, k@), vm));
                            assert(pairs.drop_last() =~= front);
                        }
                    },
                    Err(e) => {
                        proof {
                            lemma_flat_err_extends(pre, entries@, i + 1);
                        }
                        return Err(e);
                    },
                }
            },
        }
        i = i + 1;
    }
    assert(entries@.take(entries@.len() as int) =~= entries@);
    Ok(())
}

impl Config {
    /// Reads a configuration from a document tree: the root must be a
    /// table; a string under `active` names the active profile; each other
    /// table is a profile, its nested tables flattened into dotted keys.
    pub fn from_tree(root: &Node) -> (r: Result<Config, ConfigError>)
        ensures
            match config_of_tree(*root) {
                Ok((a, m)) => r matches Ok(c) && c@.wf() && c@.active == a && c@.profile_map() == m,
                Err(e) => r matches Err(x) && x == e,
            },
    {
        let entries = match root {
            Node::Table(t) => t,
            _ => {
                return Err(ConfigError::NotATable);
            },
        };
        let mut config = Config::new();
        let mut active: Option<String> = None;
        proof {
            reveal_strlit("active");
        }
        assert("active"@ =~= active_key());
        let mut i: usize = 0;
        assert(entries@.take(0) =~= Seq::<(String, Node)>::empty());
        assert(config@.profile_map() =~= Map::empty());
        while i < entries.len()
            invariant
                i <= entries@.len(),
                *root matches Node::Table(t) && t@ == entries@,
                "active"@ == active_key(),
                config@.wf(),
                profiles_of(entries@.take(i as int)) is Ok,
                config@.profile_map() == profiles_of(entries@.take(i as int))->Ok_0,
                match active {
                    Some(a) => active_of(entries@.take(i as int)) == Some(a@),
                    None => active_of(entries@.take(i as int)) is None,
                },
            decreases entries@.len() - i,
        {
            assert(entries@.take(i + 1).drop_last() =~= entries@.take(i as int));
            assert(entries@.take(i + 1).last() == entries@[i as int]);
            let (name, n) = &entries[i];
            let is_active = match compare_text(name.as_str(), "active") {
                core::cmp::Ordering::Equal => true,
                _ => false,
            };
            if is_active {
                active = match n {
                    Node::String(s) => Some(s.clone()),
                    _ => None,
                };
            } else {
                match n {
                    Node::Table(t) => {
                        let mut p = match Profile::new(name.clone()) {
                            Ok(p) => p,
                            Err(e) => {
                                proof {
                                    assert(name@ != active_key());
                                    assert(entries@[i as int].1 == *n);
                                    assert(profiles_of(entries@.take(i + 1)) == Err::<Map<Seq<char>, Map<Seq<char>, ValueModel>>, ConfigError>(ConfigError::EmptyProfileName));
                                    lemma_profiles_err_extends(entries@, i + 1);
                                }
                                return Err(e);
                            },
                        };
                        match flatten_into(None, t, &mut p) {
                            Ok(()) => {
                                assert(p@.field_map() =~= entries_map(flat_entries(None, t@)->Ok_0));
                                config.insert_profile(p);
                            },
                            Err(e) => {
                                proof {
                                    assert(name@ != active_key());
                                    assert(entries@[i as int].1 == *n);
                                    assert(profiles_of(entries@.take(i + 1)) == Err::<Map<Seq<char>, Map<Seq<char>, ValueModel>>, ConfigError>(e));
                                    lemma_profiles_err_extends(entries@, i + 1);
                                }
                                return Err(e);
                            },
                        }
                    },
                    _ => {},
                }
            }
            i = i + 1;
        }
        assert(entries@.take(entries@.len() as int) =~= entries@);
        config.set_active_name(active);
        Ok(config)
    }

    /// Reads a configuration from TOML text: as `from_tree` does with the
    /// tree that the `toml` crate reads; a syntax error where the text is
    /// not TOML.
    pub fn parse(text: &str) -> (r: Result<Config, ConfigError>)
        ensures
            match toml_tree(text@) {
                None => r matches Err(ConfigError::Syntax(_)),
                Some(root) => match config_of_tree(root) {
                    Ok((a, m)) => r matches Ok(c) && c@.wf() && c@.active == a && c@.profile_map() == m,
                    Err(e) => r matches Err(x) && x == e,
                },
            },
    {
        match read_toml(text) {
            Ok(root) => Config::from_tree(&root),
            Err(msg) => Err(ConfigError::Syntax(msg)),
        }
    }

    /// Makes `name` the active profile of the document `text`, which must
    /// hold a profile of that name: the document's text with its `active`
    /// key set to `name` and the rest kept as written.
    pub fn select_in_document(text: &str, name: &str) -> (r: Result<String, ConfigError>)
        ensures
            match toml_tree(text@) {
                None => r matches Err(ConfigError::Syntax(_)),
                Some(root) => match config_of_tree(root) {
                    Err(e) => r matches Err(x) && x == e,
                    Ok((a, m)) => if !m.contains_key(name@) {
                        r matches Err(ConfigError::ProfileNotFound(n)) && n@ == name@
                    } else {
                        match toml_with_string(text@, active_key(), name@) {
                            Some(t) => r matches Ok(x) && x@ == t,
                            None => r matches Err(ConfigError::Syntax(_)),
                        }
                    },
                },
            },
    {
        let config = match Config::parse(text) {
            Ok(c) => c,
            Err(e) => {
                return Err(e);
            },
        };
        if config.profile(name).is_none() {
            return Err(ConfigError::ProfileNotFound(String::from_str(name)));
        }
        proof {
            reveal_strlit("active");
        }
        assert("active"@ =~= active_key());
        match set_toml_string(text, "active", name) {
            Ok(t) => Ok(t),
            Err(msg) => Err(ConfigError::Syntax(msg)),
        }
    }
}

impl core::str::FromStr for Config {
    type Err = ConfigError;

    fn from_str(s: &str) -> Result<Config, ConfigError> {
        Config::parse(s)
    }
}

} // verus!
