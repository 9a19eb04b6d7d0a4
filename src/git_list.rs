//! Reading a profile from the `key=value` lines that `git config --list`
//! prints.

use vstd::prelude::*;
use crate::config::Profile;
use crate::error::ConfigError;
use crate::keyed::entries_map;
use crate::text::push_char;
use crate::value::{git_text_value, FromGitStr, Value, ValueModel};

verus! {

/// A line without the `\r` that ends it, if one does.
pub open spec fn strip_cr(line: Seq<char>) -> Seq<char> {
    if line.len() > 0 && line.last() == '\r' {
        line.drop_last()
    } else {
        line
    }
}

/// The lines ended so far, and the text of the line not ended yet.
pub open spec fn lines_acc(s: Seq<char>) -> (Seq<Seq<char>>, Seq<char>)
    decreases s.len(),
{
    if s.len() == 0 {
        (Seq::empty(), Seq::empty())
    } else {
        let (done, cur) = lines_acc(s.drop_last());
        if s.last() == '\n' {
            (done.push(strip_cr(cur)), Seq::empty())
        } else {
            (done, cur.push(s.last()))
        }
    }
}

/// The lines of a text: split at each `\n`, less a `\r` just before it; a
/// last line without `\n` counts when it is not empty.
pub open spec fn lines_of(s: Seq<char>) -> Seq<Seq<char>> {
    let (done, cur) = lines_acc(s);
    if cur.len() == 0 {
        done
    } else {
        done.push(cur)
    }
}

/// Where the first `=` of a line stands.
pub open spec fn first_eq(line: Seq<char>) -> Option<int>
    decreases line.len(),
{
    if line.len() == 0 {
        None
    } else {
        match first_eq(line.drop_last()) {
            Some(i) => Some(i),
            None => if line.last() == '=' {
                Some(line.len() - 1)
            } else {
                None
            },
        }
    }
}

/// The key before a line's first `=` and the value read from the text after
/// it; none where the line has no `=`.
pub open spec fn git_entry(line: Seq<char>) -> Option<(Seq<char>, ValueModel)> {
    match first_eq(line) {
        Some(i) => Some((line.take(i), git_text_value(line.skip(i + 1)))),
        None => None,
    }
}

/// The fields that the lines give, in order, or the first line without `=`.
pub open spec fn git_entries(lines: Seq<Seq<char>>) -> Result<Seq<(Seq<char>, ValueModel)>, Seq<char>>
    decreases lines.len(),
{
    if lines.len() == 0 {
        Ok(Seq::empty())
    } else {
        match git_entries(lines.drop_last()) {
            Err(l) => Err(l),
            Ok(front) => match git_entry(lines.last()) {
                Some(e) => Ok(front.push(e)),
                None => Err(lines.last()),
            },
        }
    }
}

/// The lines of `text`.
fn split_lines(text: &str) -> (r: Vec<String>)
    ensures
        r@.map_values(|l: String| l@) == lines_of(text@),
{
    let n = text.unicode_len();
    let mut done: Vec<String> = Vec::new();
    let mut cur = String::new();
    let mut i: usize = 0;
    assert(text@.take(0) =~= Seq::<char>::empty());
    while i < n
        invariant
            n == text@.len(),
            i <= n,
            done@.map_values(|l: String| l@) == lines_acc(text@.take(i as int)).0,
            cur@ == lines_acc(text@.take(i as int)).1,
        decreases n - i,
    {
        let c = text.get_char(i);
        assert(text@.take(i + 1).drop_last() =~= text@.take(i as int));
        if c == '\n' {
            let k = cur.unicode_len();
            let line = if k > 0 && cur.get_char(k - 1) == '\r' {
                String::from_str(cur.as_str().substring_char(0, k - 1))
            } else {
                cur
            };
            assert(line@ =~= strip_cr(lines_acc(text@.take(i as int)).1));
            let ghost before = done@;
            done.push(line);
            assert(done@.map_values(|l: String| l@) =~= before.map_values(|l: String| l@).push(line@));
            cur = String::new();
            assert(cur@ =~= Seq::<char>::empty());
        } else {
            push_char(&mut cur, c);
        }
        i = i + 1;
    }
    assert(text@.take(n as int) =~= text@);
    if cur.unicode_len() > 0 {
        let ghost before = done@;
        done.push(cur);
        assert(done@.map_values(|l: String| l@) =~= before.map_values(|l: String| l@).push(lines_acc(text@).1));
    }
    done
}

/// The key and value of one line, or none where it has no `=`.
fn entry_of(line: &str) -> (r: Option<(String, Value)>)
    ensures
        match git_entry(line@) {
            Some(e) => r matches Some(x) && x.0@ == e.0 && x.1@ == e.1,
            None => r is None,
        },
{
    let n = line.unicode_len();
    let mut i: usize = 0;
    while i < n
        invariant
            n == line@.len(),
            i <= n,
            first_eq(line@.take(i as int)) is None,
        decreases n - i,
    {
        assert(line@.take(i + 1).drop_last() =~= line@.take(i as int));
        if line.get_char(i) == '=' {
            proof {
                lemma_first_eq_prefix(line@, i as int + 1);
            }
            let key = String::from_str(line.substring_char(0, i));
            let rest = line.substring_char(i + 1, n);
            assert(rest@ =~= line@.skip(i + 1));
            let v = match Value::from_git_str(rest) {
                Ok(v) => v,
                Err(_) => {
                    return None;
                },
            };
            return Some((key, v));
        }
        i = i + 1;
    }
    assert(line@.take(n as int) =~= line@);
    None
}

/// The first `=` found in a prefix is the first of the whole line.
proof fn lemma_first_eq_prefix(line: Seq<char>, k: int)
    requires
        0 <= k <= line.len(),
        first_eq(line.take(k)) is Some,
    ensures
        first_eq(line) == first_eq(line.take(k)),
    decreases line.len() - k,
{
    if k < line.len() {
        assert(line.take(k + 1).drop_last() =~= line.take(k));
        lemma_first_eq_prefix(line, k + 1);
    } else {
        assert(line.take(k) =~= line);
    }
}

proof fn lemma_git_entries_err_extends(lines: Seq<Seq<char>>, i: int)
    requires
        0 <= i <= lines.len(),
        git_entries(lines.take(i)) is Err,
    ensures
        git_entries(lines) == git_entries(lines.take(i)),
    decreases lines.len() - i,
{
    if i < lines.len() {
        assert(lines.take(i + 1).drop_last() =~= lines.take(i));
        lemma_git_entries_err_extends(lines, i + 1);
    } else {
        assert(lines.take(i) =~= lines);
    }
}

impl Profile {
    /// The profile `name` with the settings of a `git config --list`
    /// listing: one `key=value` line per setting, the value read as
    /// `Value::from_git_str` reads it, a later line winning over an earlier
    /// one of the same key. Fails on a line without `=`.
    pub fn from_git_list(name: String, listing: &str) -> (r: Result<Profile, ConfigError>)
        ensures
            name@.len() == 0 ==> r matches Err(ConfigError::EmptyProfileName),
            name@.len() > 0 ==> match git_entries(lines_of(listing@)) {
                Ok(pairs) => r matches Ok(p) && p@.wf() && p@.name == name@ && p@.field_map() == entries_map(pairs),
                Err(bad) => r matches Err(ConfigError::MalformedGitLine(l)) && l@ == bad,
            },
    {
        let mut p = match Profile::new(name) {
            Ok(p) => p,
            Err(e) => {
                return Err(e);
            },
        };
        let lines = split_lines(listing);
        let ghost ls = lines_of(listing@);
        let ghost name_v = p@.name;
        let mut i: usize = 0;
        assert(ls.take(0) =~= Seq::<Seq<char>>::empty());
        assert(p@.field_map() =~= entries_map(Seq::<(Seq<char>, ValueModel)>::empty()));
        while i < lines.len()
            invariant
                ls == lines@.map_values(|l: String| l@),
                i <= ls.len(),
                p@.wf(),
                p@.name == name_v,
                name_v == name@,
                name@.len() > 0,
                ls == lines_of(listing@),
                git_entries(ls.take(i as int)) is Ok,
                p@.field_map() == entries_map(git_entries(ls.take(i as int))->Ok_0),
            decreases ls.len() - i,
        {
            assert(ls.take(i + 1).drop_last() =~= ls.take(i as int));
            assert(ls[i as int] == lines@[i as int]@);
            let ghost front = git_entries(ls.take(i as int))->Ok_0;
            match entry_of(lines[i].as_str()) {
                Some((k, v)) => {
                    let ghost e = (k@, v@);
                    p.insert(k, v);
                    assert(front.push(e).drop_last() =~= front);
                },
                None => {
                    proof {
                        lemma_git_entries_err_extends(ls, i + 1);
                    }
                    return Err(ConfigError::MalformedGitLine(lines[i].clone()));
                },
            }
            i = i + 1;
        }
        assert(ls.take(ls.len() as int) =~= ls);
        Ok(p)
    }
}

} // verus!
