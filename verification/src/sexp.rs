//! Nested lists with annotations, and their rendering as indented text.

use vstd::prelude::*;
use crate::text::{append_chars, string_of};

verus! {

/// Conversion of a value into the tree that prints it.
pub trait ToSexp {
    fn to_sexp(&self) -> Sexp;
}

#[derive(Debug)]
pub enum Atom {
    /// A number, held as its decimal text.
    Dbl(String),
    /// A string, held without quotes.
    Str(String),
}

#[derive(Debug)]
pub enum Sexp {
    Atom(Atom),
    /// A one-line comment that is printed above the tree it belongs to.
    Annotated(String, Box<Sexp>),
    List(Vec<Sexp>),
}

/// Rendering of a value as text for a reader.
pub trait PrettyPrint {
    fn pretty_print(&self) -> String;
}

/// `n` spaces.
pub open spec fn spaces(n: nat) -> Seq<char> {
    Seq::new(n, |i: int| ' ')
}

/// The text of an atom: a number as it is held, a string between double
/// quotes, with nothing in it escaped.
pub open spec fn atom_text(atom: Atom) -> Seq<char> {
    match atom {
        Atom::Dbl(rep) => rep@,
        Atom::Str(val) => seq!['"'] + val@ + seq!['"'],
    }
}

/// The column just past `sexp` when it is rendered from column `col`. An
/// atom ends as many columns past `col` as its text is long, an annotated
/// tree ends where its child ends, and a list ends where its last element
/// ends, or just past its `(` when it has none.
pub open spec fn end_column(sexp: Sexp, col: nat) -> nat
    decreases sexp,
{
    match sexp {
        Sexp::Atom(atom) => col + atom_text(atom).len(),
        Sexp::Annotated(_, child) => end_column(*child, col),
        Sexp::List(items) => {
            if items@.len() == 0 {
                col + 1
            } else if items@.len() == 1 {
                end_column(items@[0], col + 1)
            } else {
                end_column(items@.last(), end_column(items@[0], col + 1) + 1)
            }
        },
    }
}

/// The column at which the second element of a list starts, and to which
/// its later elements are indented, when the list opens at column `col` with
/// `head` as its first element.
pub open spec fn list_indent(head: Sexp, col: nat) -> nat {
    end_column(head, col + 1) + 1
}

/// The text of `sexp` when it starts at column `col`.
///
/// An atom is its text. An annotated tree is `#`, the comment and a line
/// break, then `col` spaces and the tree itself. A list is `(`, its first
/// element, a space and its second element, and then each later element on a
/// line of its own, indented to the column where the second element
/// started. Nothing closes a list.
pub open spec fn render_at(sexp: Sexp, col: nat) -> Seq<char>
    decreases sexp, 0nat,
{
    match sexp {
        Sexp::Atom(atom) => atom_text(atom),
        Sexp::Annotated(comment, child) => seq!['#'] + comment@ + seq!['\n'] + spaces(col)
            + render_at(*child, col),
        Sexp::List(items) => {
            if items@.len() == 0 {
                seq!['(']
            } else if items@.len() == 1 {
                seq!['('] + render_at(items@[0], col + 1)
            } else {
                let indent = list_indent(items@[0], col);
                seq!['('] + render_at(items@[0], col + 1) + seq![' '] + render_at(
                    items@[1],
                    indent,
                ) + render_rest(items@, 2, indent)
            }
        },
    }
}

/// The text of the elements `items[k..]` of a list, each on a new line that
/// begins with `indent` spaces.
pub open spec fn render_rest(items: Seq<Sexp>, k: int, indent: nat) -> Seq<char>
    decreases items, items.len() - k,
{
    if 0 <= k < items.len() {
        seq!['\n'] + spaces(indent) + render_at(items[k], indent) + render_rest(
            items,
            k + 1,
            indent,
        )
    } else {
        Seq::empty()
    }
}

/// The text of `sexp` as a whole: it starts at column 0.
pub open spec fn render(sexp: Sexp) -> Seq<char> {
    render_at(sexp, 0)
}

/// A list of three elements has its first two elements on one line, `(`
/// before them and one space between them, and its third element on a new
/// line, after as many spaces as there are columns before the second
/// element. Where the first element is an atom, that is the column of the
/// `(`, one for the `(` itself, the width of the atom, and one for the space.
pub proof fn lemma_third_element_aligns_with_second(items: Vec<Sexp>, col: nat)
    requires
        items@.len() == 3,
    ensures
        render_at(Sexp::List(items), col) == seq!['('] + render_at(items@[0], col + 1) + seq![' ']
            + render_at(items@[1], list_indent(items@[0], col)) + seq!['\n'] + spaces(
            list_indent(items@[0], col),
        ) + render_at(items@[2], list_indent(items@[0], col)),
        items@[0] matches Sexp::Atom(head) ==> list_indent(items@[0], col) == col + (seq!['(']
            + atom_text(head) + seq![' ']).len(),
{
    let indent = list_indent(items@[0], col);
    reveal_with_fuel(render_rest, 2);
    assert(render_rest(items@, 3, indent) =~= Seq::<char>::empty());
    assert(render_rest(items@, 2, indent) =~= seq!['\n'] + spaces(indent) + render_at(
        items@[2],
        indent,
    ));
}

/// In a list of two or more elements, every element from the third on is
/// rendered from the column at which the second element starts, on a line of
/// its own that begins with that many spaces.
pub proof fn lemma_later_elements_align(items: Seq<Sexp>, k: int, indent: nat)
    requires
        2 <= k < items.len(),
    ensures
        render_rest(items, 2, indent) == render_rest(items.take(k), 2, indent) + seq!['\n']
            + spaces(indent) + render_at(items[k], indent) + render_rest(items, k + 1, indent),
{
    lemma_render_rest_split(items, 2, k, indent);
}

/// The text of `items[from..]` is the text of `items[from..k]` followed by
/// the text of `items[k..]`.
proof fn lemma_render_rest_split(items: Seq<Sexp>, from: int, k: int, indent: nat)
    requires
        0 <= from <= k < items.len(),
    ensures
        render_rest(items, from, indent) == render_rest(items.take(k), from, indent) + seq!['\n']
            + spaces(indent) + render_at(items[k], indent) + render_rest(items, k + 1, indent),
    decreases k - from,
{
    if from == k {
        assert(render_rest(items.take(k), from, indent) =~= Seq::<char>::empty());
        assert(render_rest(items, from, indent) =~= Seq::<char>::empty() + seq!['\n'] + spaces(
            indent,
        ) + render_at(items[k], indent) + render_rest(items, k + 1, indent));
    } else {
        lemma_render_rest_split(items, from + 1, k, indent);
        assert(items.take(k)[from] == items[from]);
        assert(render_rest(items, from, indent) =~= render_rest(items.take(k), from, indent)
            + seq!['\n'] + spaces(indent) + render_at(items[k], indent) + render_rest(
            items,
            k + 1,
            indent,
        ));
    }
}

/// Appends `n` spaces to `stream`.
fn push_spaces(stream: &mut Vec<char>, n: usize)
    ensures
        final(stream)@ == old(stream)@ + spaces(n as nat),
{
    let mut i: usize = 0;
    while i < n
        invariant
            i <= n,
            stream@ == old(stream)@ + spaces(i as nat),
        decreases n - i,
    {
        stream.push(' ');
        i += 1;
        assert(stream@ =~= old(stream)@ + spaces(i as nat));
    }
}

/// Appends the text of `sexp` to `stream`, for a tree that starts at column
/// `col`, and returns the column just past it. The column is that of the
/// end of `stream`, so it is no larger than what `stream` holds.
fn to_string_helper(stream: &mut Vec<char>, sexp: &Sexp, col: usize) -> (end: usize)
    requires
        col <= old(stream)@.len(),
    ensures
        final(stream)@ == old(stream)@ + render_at(*sexp, col as nat),
        end == end_column(*sexp, col as nat),
        end <= final(stream)@.len(),
    decreases sexp,
{
    match sexp {
        Sexp::Atom(Atom::Dbl(val)) => {
            let before = stream.len();
            append_chars(stream, val.as_str());
            let delta = stream.len() - before;
            col + delta
        },
        Sexp::Atom(Atom::Str(val)) => {
            let before = stream.len();
            stream.push('"');
            append_chars(stream, val.as_str());
            stream.push('"');
            let delta = stream.len() - before;
            assert(stream@ =~= old(stream)@ + (seq!['"'] + val@ + seq!['"']));
            col + delta
        },
        Sexp::Annotated(content, child) => {
            stream.push('#');
            append_chars(stream, content.as_str());
            stream.push('\n');
            push_spaces(stream, col);
            let end = to_string_helper(stream, child, col);
            assert(stream@ =~= old(stream)@ + (seq!['#'] + content@ + seq!['\n'] + spaces(
                col as nat,
            ) + render_at(**child, col as nat)));
            end
        },
        Sexp::List(sexps) => {
            stream.push('(');
            assert(col + 1 <= stream@.len() <= usize::MAX) by {
                assert(stream@.len() == stream.len());
            }
            let size = sexps.len();
            if size == 0 {
                assert(stream@ =~= old(stream)@ + seq!['(']);
                return col + 1;
            }
            let mut end = to_string_helper(stream, &sexps[0], col + 1);
            if size == 1 {
                assert(stream@ =~= old(stream)@ + (seq!['('] + render_at(
                    sexps@[0],
                    (col + 1) as nat,
                )));
                return end;
            }
            stream.push(' ');
            assert(end + 1 <= stream@.len() <= usize::MAX) by {
                assert(stream@.len() == stream.len());
            }
            let indentation = end + 1;
            end = to_string_helper(stream, &sexps[1], indentation);
            let ghost inline = seq!['('] + render_at(sexps@[0], (col + 1) as nat) + seq![' ']
                + render_at(sexps@[1], indentation as nat);
            assert(stream@ =~= old(stream)@ + inline);
            let mut i: usize = 2;
            while i < size
                invariant
                    2 <= i <= size,
                    size == sexps@.len(),
                    *sexp == Sexp::List(*sexps),
                    indentation <= stream@.len(),
                    end <= stream@.len(),
                    end == end_column(sexps@[i - 1], indentation as nat),
                    stream@ + render_rest(sexps@, i as int, indentation as nat) == old(stream)@
                        + inline + render_rest(sexps@, 2, indentation as nat),
                decreases size - i,
            {
                let ghost before = stream@;
                stream.push('\n');
                push_spaces(stream, indentation);
                assert(decreases_to!(sexp => sexp->List_0));
                end = to_string_helper(stream, &sexps[i], indentation);
                assert(stream@ + render_rest(sexps@, i + 1, indentation as nat) =~= before
                    + render_rest(sexps@, i as int, indentation as nat));
                i += 1;
            }
            assert(stream@ =~= old(stream)@ + (inline + render_rest(
                sexps@,
                2,
                indentation as nat,
            )));
            end
        },
    }
}

impl Sexp {
    /// The text of the tree.
    pub fn to_string(&self) -> (res: String)
        ensures
            res@ == render(*self),
    {
        let mut buffer: Vec<char> = Vec::new();
        to_string_helper(&mut buffer, self, 0);
        string_of(&buffer, 0, buffer.len())
    }
}

} // verus!
