//! File system paths, held as strings and read through `std::path`.
//!
//! On Unix a path reads as a list of components: a leading `/` is the root,
//! a leading `.` piece is the current directory, and the rest are the pieces
//! between the `/` separators, where repeated separators and `.` pieces are
//! normalised away.
use vstd::prelude::*;

verus! {

/// A piece that ends the current one: it counts unless it is empty or `.`.
pub open spec fn flush_piece(before: Seq<Seq<char>>, piece: Seq<char>) -> Seq<Seq<char>> {
    if piece.len() == 0 || piece == "."@ {
        before
    } else {
        before.push(piece)
    }
}

/// The pieces of `path` before `tail`, where `tail` holds the characters
/// already read of the last piece.
pub open spec fn pieces_before(path: Seq<char>, tail: Seq<char>) -> Seq<Seq<char>>
    decreases path.len(),
{
    if path.len() == 0 {
        flush_piece(Seq::empty(), tail)
    } else if path.last() == '/' {
        flush_piece(pieces_before(path.drop_last(), Seq::empty()), tail)
    } else {
        pieces_before(path.drop_last(), seq![path.last()] + tail)
    }
}

/// The pieces between the separators, without empty and `.` pieces.
pub open spec fn path_pieces(path: Seq<char>) -> Seq<Seq<char>> {
    pieces_before(path, Seq::empty())
}

/// The components of a path: the root as `/`, a leading current directory
/// as `.`, then the pieces.
pub open spec fn path_components(path: Seq<char>) -> Seq<Seq<char>> {
    let lead = if path.len() > 0 && path[0] == '/' {
        seq!["/"@]
    } else if path == "."@ || (path.len() >= 2 && path[0] == '.' && path[1] == '/') {
        seq!["."@]
    } else {
        Seq::empty()
    };
    lead + path_pieces(path)
}

/// The final component of a path where it is a name: none for a path
/// without pieces (the root, the current directory, the empty path) and
/// none where it ends in `..`.
pub open spec fn path_file_name(path: Seq<char>) -> Option<Seq<char>> {
    let pieces = path_pieces(path);
    if pieces.len() == 0 || pieces.last() == ".."@ {
        None
    } else {
        Some(pieces.last())
    }
}

/// Two paths are equal as `std::path::Path` compares them: component by
/// component.
pub open spec fn paths_equal(a: Seq<char>, b: Seq<char>) -> bool {
    path_components(a) == path_components(b)
}

/// Calls `Path::file_name` on `path` and turns the component back into a
/// `String` (a component of a UTF-8 path is UTF-8). std documents the
/// result as the final component where it is a normal name, and `None`
/// where the path ends in `..` or has no such component, with the path read
/// component by component as `Path::components` documents it.
#[verifier::external_body]
pub fn file_name(path: &String) -> (r: Option<String>)
    ensures
        match r {
            Some(name) => path_file_name(path@) == Some(name@),
            None => path_file_name(path@) is None,
        },
{
    match std::path::Path::new(path).file_name() {
        Some(name) => Some(name.to_string_lossy().into_owned()),
        None => None,
    }
}

/// Compares two paths with `<Path as PartialEq>::eq`, which std documents to
/// compare the paths' components.
#[verifier::external_body]
pub fn same_path(a: &String, b: &String) -> (r: bool)
    ensures
        r == paths_equal(a@, b@),
{
    std::path::Path::new(a) == std::path::Path::new(b)
}

} // verus!
