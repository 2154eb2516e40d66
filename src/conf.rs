//! The session declaration: a named session and its ordered windows.

use crate::cli::{InitArgs, WindowAddArgs, WindowRemoveArgs};
use crate::error::SeshError;
use crate::words::{is_phrase, rand_phrase};
use vstd::prelude::*;

verus! {

/// A declared session: its name and its windows, in order.
#[derive(Debug, Clone, PartialEq, Eq)]
pub struct Config {
    pub name: String,
    pub window: Vec<WindowConf>,
}

/// A declared window: an optional name and an optional argv-style startup command.
#[derive(Debug, Clone, PartialEq, Eq)]
pub struct WindowConf {
    pub name: Option<String>,
    pub command: Option<Vec<String>>,
    pub default: Option<bool>,
}

/// What a declared window holds, as plain values.
pub struct WindowView {
    pub name: Option<Seq<char>>,
    pub command: Option<Seq<Seq<char>>>,
    pub default: Option<bool>,
}

/// What a declaration holds, as plain values.
pub struct ConfigView {
    pub name: Seq<char>,
    pub windows: Seq<WindowView>,
}

/// An optional text as plain characters.
pub open spec fn text_of(s: Option<String>) -> Option<Seq<char>> {
    match s {
        Some(t) => Some(t@),
        None => None,
    }
}

/// A list of texts as plain characters.
pub open spec fn texts_of(v: Seq<String>) -> Seq<Seq<char>> {
    v.map_values(|s: String| s@)
}

/// An optional argv-style command as plain characters.
pub open spec fn argv_of(v: Option<Vec<String>>) -> Option<Seq<Seq<char>>> {
    match v {
        Some(a) => Some(texts_of(a@)),
        None => None,
    }
}

impl View for WindowConf {
    type V = WindowView;

    open spec fn view(&self) -> WindowView {
        WindowView { name: text_of(self.name), command: argv_of(self.command), default: self.default }
    }
}

impl View for Config {
    type V = ConfigView;

    open spec fn view(&self) -> ConfigView {
        ConfigView { name: self.name@, windows: self.window@.map_values(|w: WindowConf| w@) }
    }
}

/// The window that `window add` appends: the command followed by its arguments.
pub open spec fn added_window(args: WindowAddArgs) -> WindowView {
    WindowView {
        name: text_of(args.name),
        command: Some(seq![args.cmd@] + texts_of(args.args@)),
        default: None,
    }
}

/// Whether the declared window carries exactly this name.
pub open spec fn named(w: WindowView, name: Seq<char>) -> bool {
    w.name == Some(name)
}

/// Whether some declared window carries this name.
pub open spec fn holds_name(ws: Seq<WindowView>, name: Seq<char>) -> bool {
    exists|i: int| 0 <= i < ws.len() && named(#[trigger] ws[i], name)
}

/// `after` is `before` without its first window named `name`.
pub open spec fn removes_first(before: Seq<WindowView>, after: Seq<WindowView>, name: Seq<char>) -> bool {
    exists|i: int|
        0 <= i < before.len() && named(#[trigger] before[i], name) && (forall|j: int|
            0 <= j < i ==> !named(#[trigger] before[j], name)) && after == before.remove(i)
}

/// A copy of an optional text.
fn copy_text(s: &Option<String>) -> (r: Option<String>)
    ensures
        text_of(r) == text_of(*s),
{
    match s {
        Some(t) => Some(t.clone()),
        None => None,
    }
}

/// A copy of a list of texts.
pub(crate) fn copy_texts(v: &[String]) -> (r: Vec<String>)
    ensures
        texts_of(r@) == texts_of(v@),
{
    let mut r: Vec<String> = Vec::new();
    let mut i: usize = 0;
    while i < v.len()
        invariant
            i <= v@.len(),
            texts_of(r@) == texts_of(v@.subrange(0, i as int)),
        decreases v@.len() - i,
    {
        let ghost before = r@;
        let item = v[i].clone();
        r.push(item);
        proof {
            assert(v@.subrange(0, i + 1) == v@.subrange(0, i as int).push(v@[i as int]));
            assert(texts_of(r@) =~= texts_of(before).push(v@[i as int]@));
            assert(texts_of(v@.subrange(0, i + 1)) =~= texts_of(v@.subrange(0, i as int)).push(
                v@[i as int]@,
            ));
        }
        i += 1;
    }
    proof {
        assert(v@.subrange(0, v@.len() as int) == v@);
    }
    r
}

/// `head` followed by a copy of `tail`.
fn argv_from(head: &String, tail: &Vec<String>) -> (r: Vec<String>)
    ensures
        texts_of(r@) == seq![head@] + texts_of(tail@),
{
    let mut r: Vec<String> = Vec::new();
    r.push(head.clone());
    let mut rest = copy_texts(tail.as_slice());
    let ghost first = r@;
    r.append(&mut rest);
    proof {
        assert(texts_of(r@) =~= texts_of(first) + texts_of(tail@));
        assert(texts_of(first) =~= seq![head@]);
    }
    r
}

/// The declaration that `init` writes: the given session name, or a random
/// one, and no windows. An existing file is kept unless `args.overwrite`.
pub fn init_config(args: &InitArgs, config_exists: bool) -> (r: Result<Config, SeshError>)
    ensures
        r is Err <==> config_exists && !args.overwrite,
        r matches Err(e) ==> e is ConfigExists,
        r matches Ok(c) ==> {
            &&& c@.windows.len() == 0
            &&& args.name matches Some(n) ==> c@.name == n@
            &&& args.name is None ==> is_phrase(c@.name, 1, '-')
        },
{
    if config_exists && !args.overwrite {
        return Err(SeshError::ConfigExists);
    }
    let name = match &args.name {
        Some(n) => n.clone(),
        None => match rand_phrase(None, None) {
            Ok(p) => p,
            Err(e) => return Err(e),
        },
    };
    Ok(Config::with_name(name))
}

impl Config {
    /// A declaration with this name and no windows.
    pub fn with_name(name: String) -> (r: Config)
        ensures
            r@.name == name@,
            r@.windows == Seq::<WindowView>::empty(),
    {
        let r = Config { name, window: Vec::new() };
        proof {
            assert(r@.windows =~= Seq::<WindowView>::empty());
        }
        r
    }

    /// Appends the window that `args` describes.
    pub fn add_window(&mut self, args: &WindowAddArgs)
        ensures
            final(self)@.name == old(self)@.name,
            final(self)@.windows == old(self)@.windows.push(added_window(*args)),
    {
        let w = WindowConf {
            name: copy_text(&args.name),
            command: Some(argv_from(&args.cmd, &args.args)),
            default: None,
        };
        self.window.push(w);
        proof {
            assert(final(self)@.windows =~= old(self)@.windows.push(added_window(*args)));
        }
    }

    /// Removes the first window whose name is exactly the one in `args`.
    pub fn remove_window(&mut self, args: &WindowRemoveArgs) -> (r: Result<(), SeshError>)
        ensures
            final(self)@.name == old(self)@.name,
            args.name is None ==> r == Err::<(), SeshError>(SeshError::NameRequired),
            r is Err ==> final(self)@.windows == old(self)@.windows,
            args.name matches Some(n) ==> {
                &&& r is Ok <==> holds_name(old(self)@.windows, n@)
                &&& r is Ok ==> removes_first(old(self)@.windows, final(self)@.windows, n@)
                &&& r matches Err(e) ==> e matches SeshError::WindowNotFound(m) && m@ == n@
            },
    {
        let n = match &args.name {
            Some(n) => n,
            None => return Err(SeshError::NameRequired),
        };
        let mut i: usize = 0;
        while i < self.window.len()
            invariant
                i <= self.window@.len(),
                self.window@ == old(self).window@,
                self.name == old(self).name,
                args.name == Some(*n),
                forall|j: int| 0 <= j < i ==> !named(#[trigger] self@.windows[j], n@),
            decreases self.window@.len() - i,
        {
            let found = match &self.window[i].name {
                Some(w) => *w == *n,
                None => false,
            };
            if found {
                proof {
                    assert(self@.windows == old(self)@.windows);
                    assert(forall|j: int| 0 <= j < i ==> !named(#[trigger] old(self)@.windows[j], n@));
                }
                self.window.remove(i);
                proof {
                    assert(self@.windows =~= old(self)@.windows.remove(i as int));
                    assert(named(old(self)@.windows[i as int], n@));
                    assert(removes_first(old(self)@.windows, self@.windows, n@));
                }
                return Ok(());
            }
            i += 1;
        }
        Err(SeshError::WindowNotFound(n.clone()))
    }
}

} // verus!
