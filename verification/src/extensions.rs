//! Path handling on plain strings.
//!
//! Paths are modeled as strings with `/` as the separator.  The library only
//! composes and decomposes path strings; whether a path exists on disk is a
//! fact that callers observe and hand in.

use vstd::prelude::*;

verus! {

/// Joining `base` and `relative`: an absolute second operand replaces the
/// base, an empty base disappears, and exactly one separator stands between
/// the two parts otherwise.
pub open spec fn spec_join_path(base: Seq<char>, relative: Seq<char>) -> Seq<char> {
    if relative.len() > 0 && relative[0] == '/' {
        relative
    } else if base.len() == 0 {
        relative
    } else if base[base.len() - 1] == '/' {
        base + relative
    } else {
        base + "/"@ + relative
    }
}

/// The characters after the last `/` of `s`; all of `s` when it has none.
pub open spec fn spec_file_name(s: Seq<char>) -> Seq<char>
    decreases s.len(),
{
    if s.len() == 0 {
        s
    } else if s[s.len() - 1] == '/' {
        Seq::empty()
    } else {
        spec_file_name(s.drop_last()).push(s[s.len() - 1])
    }
}

/// Index of the last `.` of `s`, or `-1` when it has none.
pub open spec fn spec_last_dot(s: Seq<char>) -> int
    decreases s.len(),
{
    if s.len() == 0 {
        -1
    } else if s[s.len() - 1] == '.' {
        s.len() - 1
    } else {
        spec_last_dot(s.drop_last())
    }
}

/// The stem of a file name: everything before the last `.`, except that a
/// leading `.` does not begin an extension.
pub open spec fn spec_stem(s: Seq<char>) -> Seq<char> {
    if spec_last_dot(s) >= 1 {
        s.subrange(0, spec_last_dot(s))
    } else {
        s
    }
}

/// A file name with its extension replaced: the stem alone for an empty
/// extension, and the stem, a dot and the extension otherwise.
pub open spec fn spec_with_extension(s: Seq<char>, extension: Seq<char>) -> Seq<char> {
    if extension.len() == 0 {
        spec_stem(s)
    } else {
        spec_stem(s) + "."@ + extension
    }
}

/// The path of `from` relative to `to`, when `from` lies below `to`.
pub open spec fn spec_relative_to(from: Seq<char>, to: Seq<char>) -> Option<Seq<char>> {
    if from == to {
        Some(Seq::<char>::empty())
    } else if from.len() > to.len() && from.subrange(0, to.len() as int) == to && from[to.len() as int]
        == '/' {
        Some(from.subrange(to.len() + 1int, from.len() as int))
    } else {
        None
    }
}

/// Joins two path strings.
pub fn join_path(base: &str, relative: &str) -> (r: String)
    ensures
        r@ == spec_join_path(base@, relative@),
{
    let relative_len = relative.unicode_len();
    if relative_len > 0 && relative.get_char(0) == '/' {
        return relative.to_owned();
    }
    let base_len = base.unicode_len();
    if base_len == 0 {
        return relative.to_owned();
    }
    let mut r = base.to_owned();
    if base.get_char(base_len - 1) != '/' {
        r.append("/");
    }
    r.append(relative);
    r
}

/// The file-name component of a path: the characters after its last `/`.
pub fn file_name_part(path: &str) -> (r: String)
    ensures
        r@ == spec_file_name(path@),
{
    let len = path.unicode_len();
    let mut i: usize = len;
    while i > 0
        invariant
            len == path@.len(),
            i <= len,
            forall|j: int| i <= j < len ==> path@[j] != '/',
        decreases i,
    {
        if path.get_char(i - 1) == '/' {
            proof {
                lemma_file_name_after_slash(path@, i - 1);
            }
            return path.substring_char(i, len).to_owned();
        }
        i = i - 1;
    }
    proof {
        lemma_file_name_no_slash(path@);
    }
    path.to_owned()
}

proof fn lemma_file_name_after_slash(s: Seq<char>, k: int)
    requires
        0 <= k < s.len(),
        s[k] == '/',
        forall|j: int| k < j < s.len() ==> s[j] != '/',
    ensures
        spec_file_name(s) == s.subrange(k + 1, s.len() as int),
    decreases s.len(),
{
    if k == s.len() - 1 {
        assert(spec_file_name(s) =~= s.subrange(k + 1, s.len() as int));
    } else {
        lemma_file_name_after_slash(s.drop_last(), k);
        assert(spec_file_name(s) =~= s.subrange(k + 1, s.len() as int));
    }
}

proof fn lemma_file_name_no_slash(s: Seq<char>)
    requires
        forall|j: int| 0 <= j < s.len() ==> s[j] != '/',
    ensures
        spec_file_name(s) == s,
    decreases s.len(),
{
    if s.len() > 0 {
        lemma_file_name_no_slash(s.drop_last());
        assert(spec_file_name(s) =~= s);
    } else {
        assert(spec_file_name(s) =~= s);
    }
}

proof fn lemma_last_dot_at(s: Seq<char>, k: int)
    requires
        0 <= k < s.len(),
        s[k] == '.',
        forall|j: int| k < j < s.len() ==> s[j] != '.',
    ensures
        spec_last_dot(s) == k,
    decreases s.len(),
{
    if k < s.len() - 1 {
        lemma_last_dot_at(s.drop_last(), k);
    }
}

proof fn lemma_no_dot(s: Seq<char>)
    requires
        forall|j: int| 0 <= j < s.len() ==> s[j] != '.',
    ensures
        spec_last_dot(s) == -1,
    decreases s.len(),
{
    if s.len() > 0 {
        lemma_no_dot(s.drop_last());
    }
}

/// Replaces the extension of a file name.
pub fn with_extension(file_name: &str, extension: &str) -> (r: String)
    ensures
        r@ == spec_with_extension(file_name@, extension@),
{
    let len = file_name.unicode_len();
    let mut i: usize = len;
    let mut dot_index: usize = 0;
    let mut found = false;
    while i > 0
        invariant
            len == file_name@.len(),
            i <= len,
            !found ==> forall|j: int| i <= j < len ==> file_name@[j] != '.',
            found ==> dot_index < len && file_name@[dot_index as int] == '.' && forall|j: int|
                dot_index < j < len ==> file_name@[j] != '.',
        decreases i,
    {
        if !found && file_name.get_char(i - 1) == '.' {
            dot_index = i - 1;
            found = true;
        }
        i = i - 1;
    }
    let stem: String = if found {
        proof {
            lemma_last_dot_at(file_name@, dot_index as int);
        }
        if dot_index >= 1 {
            file_name.substring_char(0, dot_index).to_owned()
        } else {
            file_name.to_owned()
        }
    } else {
        proof {
            lemma_no_dot(file_name@);
        }
        file_name.to_owned()
    };
    let extension_len = extension.unicode_len();
    if extension_len == 0 {
        stem
    } else {
        let mut r = stem;
        r.append(".");
        r.append(extension);
        r
    }
}

/// Computing one path relative to another.
pub trait PathExtension: Sized {
    /// The characters of the path.
    spec fn path_chars(&self) -> Seq<char>;

    /// The path of `self` relative to `other`: empty when the two are equal,
    /// the remainder after `other` and one separator when `self` lies below
    /// `other`, and nothing otherwise.
    fn relative_to(&self, other: &Self) -> (r: Option<Self>)
        ensures
            match r {
                Some(p) => spec_relative_to(self.path_chars(), other.path_chars()) == Some(
                    p.path_chars(),
                ),
                None => spec_relative_to(self.path_chars(), other.path_chars()) is None,
            },
    ;
}

impl PathExtension for String {
    open spec fn path_chars(&self) -> Seq<char> {
        self@
    }

    fn relative_to(&self, other: &Self) -> (r: Option<String>)
        ensures
            match r {
                Some(p) => spec_relative_to(self@, other@) == Some(p@),
                None => spec_relative_to(self@, other@) is None,
            },
    {
        let from_len = self.as_str().unicode_len();
        let to_len = other.as_str().unicode_len();
        if from_len < to_len {
            return None;
        }
        let mut i: usize = 0;
        while i < to_len
            invariant
                from_len == self@.len(),
                to_len == other@.len(),
                to_len <= from_len,
                i <= to_len,
                forall|j: int| 0 <= j < i ==> self@[j] == other@[j],
            decreases to_len - i,
        {
            if self.as_str().get_char(i) != other.as_str().get_char(i) {
                return None;
            }
            i = i + 1;
        }
        if from_len == to_len {
            proof {
                assert(self@ =~= other@);
            }
            return Some(String::new());
        }
        if self.as_str().get_char(to_len) == '/' {
            proof {
                assert(self@.subrange(0, to_len as int) =~= other@);
                assert(self@ != other@) by {
                    assert(self@.len() != other@.len());
                }
            }
            Some(self.as_str().substring_char(to_len + 1, from_len).to_owned())
        } else {
            proof {
                assert(self@ != other@) by {
                    assert(self@.len() != other@.len());
                }
            }
            None
        }
    }
}

} // verus!
