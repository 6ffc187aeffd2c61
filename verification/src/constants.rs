//! Text of the constants file that the web front end is built with.
use crate::text::push_text;
use vstd::prelude::*;

verus! {

/// The line that declares the string constant `name` with the value `value`
pub open spec fn declaration_text(name: Seq<char>, value: Seq<char>) -> Seq<char> {
    "export const "@ + name + " = \""@ + value + "\";\n"@
}

/// The line that declares the string constant `name` with the value `value`,
/// as the constants file holds it
pub fn const_declaration(name: &str, value: &str) -> (line: String)
    ensures
        line@ == declaration_text(name@, value@),
{
    let mut line = String::new();
    push_text(&mut line, "export const ");
    push_text(&mut line, name);
    push_text(&mut line, " = \"");
    push_text(&mut line, value);
    push_text(&mut line, "\";\n");
    proof {
        assert(line@ =~= declaration_text(name@, value@));
    }
    line
}

} // verus!
