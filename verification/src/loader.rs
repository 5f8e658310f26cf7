//! The plugins that have been loaded, by name.
//!
//! Loading a dynamic library is the embedding's business. The library
//! keeps the names, and says what a plugin is called.

use crate::text::{from_chars, to_chars};
use vstd::prelude::*;

verus! {

/// Why a plugin was not loaded.
#[derive(Debug, PartialEq)]
pub enum PluginError {
    /// The library could not be loaded.
    LoadError(String),
    /// The plugin's initialisation failed.
    InitError(String),
    /// No such plugin.
    NotFound(String),
}

impl PluginError {
    /// The text of `message`.
    pub open spec fn message_text(self) -> Seq<char> {
        match self {
            PluginError::LoadError(text) => "failed to load library: "@ + text@,
            PluginError::InitError(text) => "plugin initialization failed: "@ + text@,
            PluginError::NotFound(text) => "plugin not found: "@ + text@,
        }
    }

    /// A sentence that describes the error.
    pub fn message(&self) -> (r: String)
        ensures
            r@ == self.message_text(),
    {
        match self {
            PluginError::LoadError(text) => {
                let mut s = "failed to load library: ".to_owned();
                s.append(text.as_str());
                s
            },
            PluginError::InitError(text) => {
                let mut s = "plugin initialization failed: ".to_owned();
                s.append(text.as_str());
                s
            },
            PluginError::NotFound(text) => {
                let mut s = "plugin not found: ".to_owned();
                s.append(text.as_str());
                s
            },
        }
    }
}

/// A plugin that has been loaded.
#[derive(Debug, PartialEq)]
pub struct LoadedPlugin {
    pub name: String,
}

/// The plugins that have been loaded, in the order in which they were.
pub struct PluginLoader {
    plugins: Vec<LoadedPlugin>,
}

/// The position after the last `c` in `s[..end]`, or 0.
pub open spec fn after_last(s: Seq<char>, c: char, end: int) -> int
    decreases end,
{
    if end <= 0 || end > s.len() {
        0
    } else if s[end - 1] == c {
        end
    } else {
        after_last(s, c, end - 1)
    }
}

/// The name of the plugin in the file at `path`: the file's name, the
/// part of the path after its last `/`, without the extension that its
/// last `.` starts, unless that `.` stands first; `unknown` where that
/// leaves nothing.
pub open spec fn plugin_name_of(path: Seq<char>) -> Seq<char> {
    let start = after_last(path, '/', path.len() as int);
    let file = path.subrange(start, path.len() as int);
    let dot = after_last(file, '.', file.len() as int);
    let stem = if dot > 1 {
        file.subrange(0, dot - 1)
    } else {
        file
    };
    if stem.len() == 0 {
        "unknown"@
    } else {
        stem
    }
}

fn position_after_last(s: &Vec<char>, c: char, from: usize, end: usize) -> (r: usize)
    requires
        from <= end <= s.len(),
    ensures
        r as int == from + after_last(s@.subrange(from as int, end as int), c, end - from),
        from <= r <= end,
{
    let ghost part = s@.subrange(from as int, end as int);
    let mut i: usize = end;
    while i > from
        invariant
            from <= i <= end <= s.len(),
            part == s@.subrange(from as int, end as int),
            after_last(part, c, end - from) == after_last(part, c, i - from),
        decreases i,
    {
        if s[i - 1] == c {
            assert(part[i - from - 1] == c);
            return i;
        }
        i -= 1;
    }
    from
}

/// The name of the plugin in the file at `path`.
pub fn plugin_name(path: &str) -> (r: String)
    ensures
        r@ == plugin_name_of(path@),
{
    let chars = to_chars(path);
    proof {
        assert(chars@.subrange(0, chars@.len() as int) =~= chars@);
    }
    let start = position_after_last(&chars, '/', 0, chars.len());
    let dot = position_after_last(&chars, '.', start, chars.len());
    let ghost file = path@.subrange(start as int, path@.len() as int);
    let end = if dot - start > 1 {
        dot - 1
    } else {
        chars.len()
    };
    proof {
        if dot - start > 1 {
            assert(file.subrange(0, dot - start - 1) =~= chars@.subrange(start as int, end as int));
        } else {
            assert(file =~= chars@.subrange(start as int, end as int));
        }
    }
    if end == start {
        "unknown".to_owned()
    } else {
        from_chars(&chars, start, end)
    }
}

impl PluginLoader {
    /// The names of the loaded plugins, in order.
    pub closed spec fn names(&self) -> Seq<Seq<char>> {
        Seq::new(self.plugins@.len(), |i: int| self.plugins@[i].name@)
    }

    /// A loader that has loaded nothing.
    pub fn new() -> (r: PluginLoader)
        ensures
            r.names() == Seq::<Seq<char>>::empty(),
    {
        let r = PluginLoader { plugins: Vec::new() };
        proof {
            assert(r.names() =~= Seq::empty());
        }
        r
    }

    /// Records that the plugin in the file at `path` has been loaded, and
    /// returns the plugin's name.
    pub fn loaded(&mut self, path: &str) -> (name: String)
        ensures
            name@ == plugin_name_of(path@),
            final(self).names() == old(self).names().push(plugin_name_of(path@)),
    {
        let name = plugin_name(path);
        self.plugins.push(LoadedPlugin { name: name.clone() });
        proof {
            assert(self.names() =~= old(self).names().push(plugin_name_of(path@)));
        }
        name
    }

    /// The names of the loaded plugins, in order.
    pub fn plugin_names(&self) -> (r: Vec<&str>)
        ensures
            r@.len() == self.names().len(),
            forall|i: int| 0 <= i < r@.len() ==> (#[trigger] r@[i])@ == self.names()[i],
    {
        let mut out: Vec<&str> = Vec::new();
        let mut i: usize = 0;
        while i < self.plugins.len()
            invariant
                i <= self.plugins.len(),
                out@.len() == i,
                forall|j: int| 0 <= j < i ==> (#[trigger] out@[j])@ == self.plugins@[j].name@,
            decreases self.plugins.len() - i,
        {
            out.push(self.plugins[i].name.as_str());
            i += 1;
        }
        out
    }

    /// The number of loaded plugins.
    pub fn count(&self) -> (r: usize)
        ensures
            r == self.names().len(),
    {
        self.plugins.len()
    }
}

impl Default for PluginLoader {
    fn default() -> (r: PluginLoader)
        ensures
            r.names() == Seq::<Seq<char>>::empty(),
    {
        PluginLoader::new()
    }
}

} // verus!
