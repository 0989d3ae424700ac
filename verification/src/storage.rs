//! Where the configuration and the base templates lie, and which template
//! belongs to an output path.

use vstd::prelude::*;
use crate::failure::Failure;
use crate::lines::copy_range;
use crate::text::{chars_of, extend_chars, string_of};

verus! {

/// The index of the last `c` in `s`, or -1 if it has none.
pub open spec fn last_index_of(s: Seq<char>, c: char) -> int
    decreases s.len(),
{
    if s.len() == 0 {
        -1
    } else if s.last() == c {
        s.len() - 1
    } else {
        last_index_of(s.drop_last(), c)
    }
}

/// The last component of `path`: what follows its last slash.
pub open spec fn file_name(path: Seq<char>) -> Seq<char> {
    path.skip(last_index_of(path, '/') + 1)
}

/// The extension of `path`: what follows the last dot of its last
/// component. A component without a dot has none, nor has one whose only
/// dot is its first character, nor has the component `..`.
pub open spec fn extension(path: Seq<char>) -> Option<Seq<char>> {
    let name = file_name(path);
    let dot = last_index_of(name, '.');
    if dot <= 0 || name == seq!['.', '.'] {
        None
    } else {
        Some(name.skip(dot + 1))
    }
}

/// The name of the base template for `extension`.
pub open spec fn template_name_text(extension: Seq<char>) -> Seq<char> {
    "base."@ + extension
}

/// `base` and `rest` with one slash between them; none is added where
/// `base` is empty or ends in one.
pub open spec fn joined_path(base: Seq<char>, rest: Seq<char>) -> Seq<char> {
    if base.len() == 0 || base.last() == '/' {
        base + rest
    } else {
        base + seq!['/'] + rest
    }
}

/// `last_index_of` finds `c`, and none stands after it.
pub proof fn lemma_last_index_of(s: Seq<char>, c: char)
    ensures
        -1 <= last_index_of(s, c) < s.len(),
        forall|i: int| last_index_of(s, c) < i < s.len() ==> s[i] != c,
        last_index_of(s, c) >= 0 ==> s[last_index_of(s, c)] == c,
    decreases s.len(),
{
    if s.len() > 0 && s.last() != c {
        let t = s.drop_last();
        lemma_last_index_of(t, c);
        assert forall|i: int| last_index_of(s, c) < i < s.len() implies s[i] != c by {
            if i < t.len() {
                assert(s[i] == t[i]);
            }
        }
        if last_index_of(s, c) >= 0 {
            assert(s[last_index_of(s, c)] == t[last_index_of(t, c)]);
        }
    }
}

/// The last `c` is at `k`, if none stands after `k` and `k` holds one or is
/// -1.
pub proof fn lemma_last_index_is(s: Seq<char>, c: char, k: int)
    requires
        -1 <= k < s.len(),
        forall|i: int| k < i < s.len() ==> s[i] != c,
        k >= 0 ==> s[k] == c,
    ensures
        last_index_of(s, c) == k,
{
    lemma_last_index_of(s, c);
    let f = last_index_of(s, c);
    if f > k {
        assert(s[f] == c);
    } else if f < k {
        assert(s[k] == c);
    }
}

/// One more than the index of the last `c` in `s` from `from` on, or `from`
/// if none stands there.
fn after_last(s: &Vec<char>, from: usize, c: char) -> (after: usize)
    requires
        from <= s.len(),
    ensures
        after == from + last_index_of(s@.skip(from as int), c) + 1,
        from <= after <= s.len(),
{
    let ghost tail = s@.skip(from as int);
    let mut i: usize = s.len();
    while i > from
        invariant
            from <= i <= s.len(),
            tail == s@.skip(from as int),
            forall|j: int| i - from <= j < tail.len() ==> tail[j] != c,
        decreases i,
    {
        if s[i - 1] == c {
            proof {
                lemma_last_index_is(tail, c, i - 1 - from);
            }
            return i;
        }
        i -= 1;
    }
    proof {
        lemma_last_index_is(tail, c, -1);
    }
    from
}

/// The extension of `path`.
///
/// Fails exactly where the path has none.
pub fn extension_of(path: &str) -> (out: Result<String, Failure>)
    ensures
        match out {
            Ok(ext) => extension(path@) == Some(ext@),
            Err(e) => extension(path@) is None && e == Failure::MissingExtension,
        },
{
    let p = chars_of(path);
    assert(p@.skip(0) == p@);
    let start: usize = after_last(&p, 0, '/');
    let ghost name = p@.skip(start as int);
    assert(name == file_name(path@));
    let after_dot: usize = after_last(&p, start, '.');
    // No dot, or none but the first character.
    if after_dot - start <= 1 {
        return Err(Failure::MissingExtension);
    }
    if p.len() - start == 2 && p[start] == '.' && p[start + 1] == '.' {
        assert(name =~= seq!['.', '.']);
        return Err(Failure::MissingExtension);
    }
    assert(name != seq!['.', '.']) by {
        if name == seq!['.', '.'] {
            assert(name.len() == 2 && name[0] == '.' && name[1] == '.');
        }
    }
    let ext = copy_range(&p, after_dot, p.len());
    assert(ext@ == name.skip(after_dot - start));
    Ok(string_of(&ext))
}

/// The name of the base template for `extension`.
pub fn template_name(extension: &str) -> (out: String)
    ensures
        out@ == template_name_text(extension@),
{
    let mut name = chars_of("base.");
    extend_chars(&mut name, &chars_of(extension));
    string_of(&name)
}

/// `base` and `rest` with one slash between them.
pub fn join_path(base: &str, rest: &str) -> (out: String)
    ensures
        out@ == joined_path(base@, rest@),
{
    let mut path = chars_of(base);
    if path.len() > 0 && path[path.len() - 1] != '/' {
        path.push('/');
    }
    extend_chars(&mut path, &chars_of(rest));
    string_of(&path)
}

/// The directory that holds the configuration and the base templates.
#[derive(Debug, PartialEq, Eq)]
pub struct StorageRoot {
    pub directory: String,
}

impl View for StorageRoot {
    type V = Seq<char>;

    open spec fn view(&self) -> Seq<char> {
        self.directory@
    }
}

impl StorageRoot {
    /// The storage root at `directory`.
    pub fn new(directory: &str) -> (root: StorageRoot)
        ensures
            root@ == directory@,
    {
        StorageRoot { directory: directory.to_owned() }
    }

    /// The storage root of the user whose home directory is `home`.
    pub fn under_home(home: &str) -> (root: StorageRoot)
        ensures
            root@ == joined_path(home@, ".config/bhg"@),
    {
        StorageRoot { directory: join_path(home, ".config/bhg") }
    }

    /// The path of the configuration file.
    pub fn variables_path(&self) -> (path: String)
        ensures
            path@ == joined_path(self@, "variables.json"@),
    {
        join_path(self.directory.as_str(), "variables.json")
    }

    /// The path of the base template for `extension`.
    pub fn template_path(&self, extension: &str) -> (path: String)
        ensures
            path@ == joined_path(self@, template_name_text(extension@)),
    {
        let name = template_name(extension);
        join_path(self.directory.as_str(), name.as_str())
    }

    /// The path of the base template for the output path `output`.
    ///
    /// Fails exactly where `output` has no extension.
    pub fn template_for(&self, output: &str) -> (out: Result<String, Failure>)
        ensures
            match out {
                Ok(path) => extension(output@) is Some && path@ == joined_path(
                    self@,
                    template_name_text(extension(output@)->Some_0),
                ),
                Err(e) => extension(output@) is None && e == Failure::MissingExtension,
            },
    {
        match extension_of(output) {
            Ok(ext) => Ok(self.template_path(ext.as_str())),
            Err(e) => Err(e),
        }
    }
}

} // verus!
