//! Paths of the host, as text with `/` between their components.

use vstd::prelude::*;
use vstd::string::*;

use crate::text;
use crate::text::{has_char, same, split_on, starts_with, strip_prefix};

verus! {

/// `rel` below `base`: with one `/` between them; an absolute `rel`
/// replaces `base`, and an empty `base` adds nothing.
pub open spec fn below(base: Seq<char>, rel: Seq<char>) -> Seq<char> {
    if rel.len() > 0 && rel[0] == '/' {
        rel
    } else if base.len() == 0 || base.last() == '/' {
        base + rel
    } else {
        base + "/"@ + rel
    }
}

/// A piece of a path that stands for nothing: empty or `.`.
pub open spec fn void(piece: Seq<char>) -> bool {
    piece.len() == 0 || piece == "."@
}

/// The last of the pieces that stands for something, unless it is `..`.
pub open spec fn last_name(pieces: Seq<Seq<char>>) -> Option<Seq<char>>
    decreases pieces.len(),
{
    if pieces.len() == 0 {
        None
    } else if void(pieces.last()) {
        last_name(pieces.drop_last())
    } else if pieces.last() == ".."@ {
        None
    } else {
        Some(pieces.last())
    }
}

/// The final component of a path: what stands behind its last `/`, not
/// counting empty and `.` components; `None` if there is none or the path
/// ends in `..`.
pub open spec fn base_name(path: Seq<char>) -> Option<Seq<char>> {
    last_name(text::split(path, '/'))
}

/// The text is the name of something in a directory: it is not empty, holds
/// no `/`, and is neither `.` nor `..`.
pub open spec fn is_single_name(name: Seq<char>) -> bool {
    &&& !void(name)
    &&& name != ".."@
    &&& !name.contains('/')
}

/// A leading `~` component stands for the home directory.
pub open spec fn tilde_expanded(path: Seq<char>, home: Seq<char>) -> Seq<char> {
    if path == "~"@ {
        home
    } else {
        match text::after_prefix(path, "~/"@) {
            Some(rest) => below(home, rest),
            None => path,
        }
    }
}

proof fn lemma_last_name(pieces: Seq<Seq<char>>)
    ensures
        last_name(pieces) matches Some(name) ==> pieces.contains(name) && !void(name),
    decreases pieces.len(),
{
    if pieces.len() > 0 {
        if void(pieces.last()) {
            lemma_last_name(pieces.drop_last());
            if let Some(name) = last_name(pieces) {
                let i = choose|i: int|
                    0 <= i < pieces.drop_last().len() && pieces.drop_last()[i] == name;
                assert(pieces[i] == name);
            }
        } else {
            assert(pieces[pieces.len() - 1] == pieces.last());
        }
    }
}

/// A final component is one component: it is not empty and holds no `/`.
pub proof fn lemma_base_name(path: Seq<char>)
    ensures
        base_name(path) matches Some(name) ==> name.len() > 0 && !name.contains('/'),
{
    lemma_last_name(text::split(path, '/'));
    text::lemma_split_pieces(path, '/');
}

/// `rel` below `base`.
pub fn join_path(base: &str, rel: &str) -> (r: String)
    ensures
        r@ == below(base@, rel@),
{
    proof {
        reveal_strlit("/");
    }
    if starts_with(rel, "/") {
        proof {
            assert(rel@.subrange(0, 1)[0] == rel@[0]);
        }
        return rel.to_owned();
    }
    proof {
        if rel@.len() > 0 && rel@[0] == '/' {
            assert(rel@.subrange(0, 1) == "/"@);
        }
    }
    let bare = base.is_empty() || text::ends_with(base, "/");
    proof {
        if base@.len() > 0 {
            let n = base@.len() as int;
            if base@.last() == '/' {
                assert(base@.subrange(n - 1, n) == "/"@);
            } else {
                assert(base@.subrange(n - 1, n)[0] != '/');
            }
        }
    }
    if bare {
        base.to_owned().concat(rel)
    } else {
        base.to_owned().concat("/").concat(rel)
    }
}

/// Whether a piece of a path stands for nothing.
fn is_void(piece: &str) -> (r: bool)
    ensures
        r == void(piece@),
{
    piece.is_empty() || same(piece, ".")
}

/// The final component of the path, if it has one.
pub fn file_name(path: &str) -> (r: Option<String>)
    ensures
        text::opt_text(r) == base_name(path@),
{
    let pieces = split_on(path, '/');
    let ghost all = text::texts(pieces@);
    let mut n: usize = pieces.len();
    proof {
        assert(all.take(n as int) == all);
    }
    while n > 0
        invariant
            n <= pieces@.len(),
            all == text::texts(pieces@),
            all == text::split(path@, '/'),
            last_name(all) == last_name(all.take(n as int)),
        decreases n,
    {
        let ghost front = all.take(n as int);
        proof {
            assert(front.drop_last() == all.take(n - 1));
            assert(front.last() == pieces@[n - 1]@);
        }
        n -= 1;
        if !is_void(pieces[n].as_str()) {
            if same(pieces[n].as_str(), "..") {
                return None;
            }
            return Some(pieces[n].clone());
        }
    }
    None
}

/// Whether the text is a single name.
pub fn single_name(name: &str) -> (r: bool)
    ensures
        r == is_single_name(name@),
{
    !is_void(name) && !same(name, "..") && !has_char(name, '/')
}

/// Expands a leading `~` to the home directory.
pub fn expand_tilde(path: &str, home: &str) -> (r: String)
    ensures
        r@ == tilde_expanded(path@, home@),
{
    if same(path, "~") {
        return home.to_owned();
    }
    match strip_prefix(path, "~/") {
        Some(rest) => join_path(home, rest.as_str()),
        None => path.to_owned(),
    }
}

} // verus!
