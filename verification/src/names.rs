//! Display-name rules: hidden-entry detection and deriving the root
//! directory's display name from a path string.

use vstd::prelude::*;

verus! {

/// A display name marks a hidden entry when it begins with a period.
pub open spec fn hidden_name(name: Seq<char>) -> bool {
    name.len() > 0 && name[0] == '.'
}

/// Returns whether `name` denotes a hidden entry (leading period).
pub fn is_hidden_name(name: &str) -> (r: bool)
    ensures
        r == hidden_name(name@),
{
    if name.unicode_len() == 0 {
        false
    } else {
        name.get_char(0) == '.'
    }
}

/// `s` with every trailing path separator removed.
pub open spec fn strip_trailing_seps(s: Seq<char>) -> Seq<char>
    decreases s.len(),
{
    if s.len() > 0 && s.last() == '/' {
        strip_trailing_seps(s.drop_last())
    } else {
        s
    }
}

/// The suffix of `s` after the last path separator (`s` itself if none).
pub open spec fn after_last_sep(s: Seq<char>) -> Seq<char>
    decreases s.len(),
{
    if s.len() == 0 {
        s
    } else if s.last() == '/' {
        Seq::empty()
    } else {
        after_last_sep(s.drop_last()).push(s.last())
    }
}

/// The display name of the directory a path denotes: its last
/// path component, with trailing separators ignored; empty when the
/// path consists of separators alone (or is itself empty).
pub open spec fn root_name(path: Seq<char>) -> Seq<char> {
    after_last_sep(strip_trailing_seps(path))
}

/// Derives the root display name from `path`, as `root_name` states.
pub fn file_name_of(path: &str) -> (r: String)
    ensures
        r@ == root_name(path@),
{
    let len = path.unicode_len();
    let mut end = len;
    proof {
        assert(path@.subrange(0, len as int) =~= path@);
    }
    while end > 0 && path.get_char(end - 1) == '/'
        invariant
            end <= len,
            len == path@.len(),
            strip_trailing_seps(path@.subrange(0, end as int)) == strip_trailing_seps(path@),
        decreases end,
    {
        proof {
            assert(path@.subrange(0, end as int).drop_last() =~= path@.subrange(
                0,
                end as int - 1,
            ));
        }
        end = end - 1;
    }
    proof {
        assert(path@.subrange(0, end as int) == strip_trailing_seps(path@));
    }
    let mut start = end;
    while start > 0 && path.get_char(start - 1) != '/'
        invariant
            start <= end <= len,
            len == path@.len(),
            path@.subrange(0, end as int) == strip_trailing_seps(path@),
            after_last_sep(path@.subrange(0, end as int)) == after_last_sep(
                path@.subrange(0, start as int),
            ) + path@.subrange(start as int, end as int),
        decreases start,
    {
        proof {
            assert(path@.subrange(0, start as int).drop_last() =~= path@.subrange(
                0,
                start as int - 1,
            ));
            assert(after_last_sep(path@.subrange(0, start as int - 1)).push(
                path@[start as int - 1],
            ) + path@.subrange(start as int, end as int) =~= after_last_sep(
                path@.subrange(0, start as int - 1),
            ) + path@.subrange(start as int - 1, end as int));
        }
        start = start - 1;
    }
    proof {
        if start == 0 {
            assert(path@.subrange(0, 0) =~= Seq::<char>::empty());
            assert(after_last_sep(path@.subrange(0, 0)) + path@.subrange(0, end as int)
                =~= path@.subrange(0, end as int));
        } else {
            assert(path@.subrange(0, start as int).last() == '/');
            assert(after_last_sep(path@.subrange(0, start as int)) + path@.subrange(
                start as int,
                end as int,
            ) =~= path@.subrange(start as int, end as int));
        }
    }
    let component = path.substring_char(start, end);
    component.to_owned()
}

} // verus!
