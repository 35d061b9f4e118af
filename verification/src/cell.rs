//! Grid cells: a text grapheme together with a style.

use vstd::prelude::*;
use vstd::string::StrSliceExecFns;
use vstd::utf8::encode_utf8;
use crate::style::{default_style, Style};

verus! {

/// The textual content of one cell, usually a single character but in
/// general one grapheme cluster.
#[derive(Debug)]
pub struct CellValue {
    value: String,
}

impl View for CellValue {
    type V = Seq<char>;

    closed spec fn view(&self) -> Seq<char> {
        self.value@
    }
}

/// Relies on `alloc::string::String::from` for `char`: the returned string
/// holds exactly that one character.
#[verifier::external_body]
fn char_to_string(c: char) -> (r: String)
    ensures
        r@ == seq![c],
{
    String::from(c)
}

impl CellValue {
    pub fn from_char(c: char) -> (r: Self)
        ensures
            r@ == seq![c],
    {
        CellValue { value: char_to_string(c) }
    }

    pub fn from_string(s: String) -> (r: Self)
        ensures
            r@ == s@,
    {
        CellValue { value: s }
    }

    /// The UTF-8 bytes of the content.
    pub fn to_vec(&self) -> (r: Vec<u8>)
        ensures
            r@ == encode_utf8(self@),
    {
        self.value.as_str().as_bytes_vec()
    }

    pub fn to_string(&self) -> (r: String)
        ensures
            r@ == self@,
    {
        self.value.clone()
    }
}

impl Clone for CellValue {
    fn clone(&self) -> (r: Self)
        ensures
            r == *self,
    {
        CellValue { value: self.value.clone() }
    }
}

/// What a cell is, mathematically: its character content and its style.
pub ghost struct CellView {
    pub text: Seq<char>,
    pub style: Style,
}

/// A single cell of a surface.  Equality is structural: same content and
/// same style.
#[derive(Debug)]
pub struct Cell {
    pub value: CellValue,
    pub style: Style,
}

impl View for Cell {
    type V = CellView;

    open spec fn view(&self) -> CellView {
        CellView { text: self.value@, style: self.style }
    }
}

/// The view of a cleared cell: a space in the default style.
pub open spec fn blank_cell() -> CellView {
    CellView { text: seq![' '], style: default_style() }
}

impl Cell {
    pub fn new(value: char) -> (r: Self)
        ensures
            r@ == (CellView { text: seq![value], style: default_style() }),
    {
        Cell { value: CellValue::from_char(value), style: Style::default() }
    }

    pub fn new_styled(value: CellValue, style: Style) -> (r: Self)
        ensures
            r@ == (CellView { text: value@, style }),
    {
        Cell { value, style }
    }

    pub fn empty_styled(style: Style) -> (r: Self)
        ensures
            r@ == (CellView { text: seq![' '], style }),
    {
        Cell { value: CellValue::from_char(' '), style }
    }

    /// True when the content is a single space, whatever the style.
    pub fn is_empty(&self) -> (r: bool)
        ensures
            r == (self@.text == seq![' ']),
    {
        let s = self.value.to_string();
        let sr = s.as_str();
        if sr.unicode_len() != 1 {
            proof {
                assert(self@.text != seq![' ']);
            }
            false
        } else {
            let c = sr.get_char(0);
            proof {
                if c == ' ' {
                    assert(self@.text =~= seq![' ']);
                }
            }
            c == ' '
        }
    }

    pub fn to_string(&self) -> (r: String)
        ensures
            r@ == self@.text,
    {
        self.value.to_string()
    }
}

impl Clone for Cell {
    fn clone(&self) -> (r: Self)
        ensures
            r == *self,
    {
        Cell { value: self.value.clone(), style: self.style }
    }
}

impl Default for Cell {
    /// A cleared cell: one space in the default style.
    fn default() -> (r: Self)
        ensures
            r@ == blank_cell(),
    {
        Cell { value: CellValue::from_char(' '), style: Style::default() }
    }
}

impl PartialEq for Cell {
    fn eq(&self, other: &Self) -> (r: bool) {
        let a = self.value.to_string();
        let b = other.value.to_string();
        a == b && self.style == other.style
    }
}

impl vstd::std_specs::cmp::PartialEqSpecImpl for Cell {
    open spec fn obeys_eq_spec() -> bool {
        true
    }

    open spec fn eq_spec(&self, other: &Cell) -> bool {
        self@ == other@
    }
}

} // verus!
