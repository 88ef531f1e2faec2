//! The property lexer: calendar text as a sequence of property lines.

use vstd::prelude::*;

verus! {

/// One logical line of a calendar file.
#[derive(Clone, Debug, PartialEq, Eq)]
pub enum PropertyLine {
    /// A property: its name and, where the line holds one, its value.
    Property { name: String, value: Option<String> },
    /// A line that cannot be split into a name and a value.
    Malformed,
}

/// One logical line of a calendar file, as a mathematical value.
pub enum PropertyLineView {
    Property { name: Seq<char>, value: Option<Seq<char>> },
    Malformed,
}

impl View for PropertyLine {
    type V = PropertyLineView;

    open spec fn view(&self) -> PropertyLineView {
        match self {
            PropertyLine::Property { name, value } => PropertyLineView::Property {
                name: name@,
                value: match value {
                    Some(v) => Some(v@),
                    None => None,
                },
            },
            PropertyLine::Malformed => PropertyLineView::Malformed,
        }
    }
}

/// The mathematical values of a sequence of lines.
pub open spec fn lines_view(lines: Seq<PropertyLine>) -> Seq<PropertyLineView> {
    lines.map_values(|l: PropertyLine| l@)
}

/// The lines that the ical crate's property parser yields for a text, in
/// file order, up to the end of what it reads.
pub uninterp spec fn ical_properties(text: Seq<char>) -> Seq<PropertyLineView>;

/// Runs ical's `PropertyParser` over the bytes of the text and collects what
/// it yields, a property's name and value as they come and each error as a
/// malformed line. Its reader fails only on bytes that cannot be read as
/// UTF-8, which a `str` never holds, and each step takes at least one line,
/// so the run ends. Trusted: the lines depend on the text alone.
#[verifier::external_body]
fn ical_lex(text: &str) -> (lines: Vec<PropertyLine>)
    ensures
        lines_view(lines@) == ical_properties(text@),
{
    ical::PropertyParser::from_reader(text.as_bytes())
        .map(
            |line| match line {
                Ok(p) => PropertyLine::Property { name: p.name, value: p.value },
                Err(_) => PropertyLine::Malformed,
            },
        )
        .collect()
}

/// Splits calendar text into its property lines.
pub fn property_lines(text: &str) -> (lines: Vec<PropertyLine>)
    ensures
        lines_view(lines@) == ical_properties(text@),
{
    ical_lex(text)
}

} // verus!
