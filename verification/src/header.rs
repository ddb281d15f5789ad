//! The header of object identifiers: one line for each object of a pool,
//! with the object's name made into an identifier of the C language.

use vstd::prelude::*;
use vstd::string::*;
use crate::decimal::{decimal, decimal_string};
use crate::editor_project::EditorProject;
use crate::naming_rules::shown_name_of;
use crate::object::ObjectView;
use crate::object_pool::sorted_by_id;

verus! {

/// Whether `c` is one of the letters `a` to `z`.
pub open spec fn is_lower_case(c: char) -> bool {
    'a' <= c <= 'z'
}

/// Whether `c` is one of the letters `A` to `Z` or a digit.
pub open spec fn is_upper_case_or_digit(c: char) -> bool {
    ('A' <= c <= 'Z') || ('0' <= c <= '9')
}

/// The character that stands for `c` in an identifier: the upper case
/// letter for a letter, the digit for a digit, an underscore for anything
/// else.
pub open spec fn identifier_char(c: char) -> char {
    if is_lower_case(c) {
        ((c as u8) - 32) as char
    } else if is_upper_case_or_digit(c) {
        c
    } else {
        '_'
    }
}

/// `name` as an identifier: each character replaced by the one that stands
/// for it.
pub open spec fn c_identifier(name: Seq<char>) -> Seq<char> {
    Seq::new(name.len(), |i: int| identifier_char(name[i]))
}

/// The text of the character that stands for `c`.
fn identifier_text(c: char) -> (r: &'static str)
    ensures
        r@ == seq![identifier_char(c)],
{
    proof {
            reveal_strlit("A");
            reveal_strlit("B");
            reveal_strlit("C");
            reveal_strlit("D");
            reveal_strlit("E");
            reveal_strlit("F");
            reveal_strlit("G");
            reveal_strlit("H");
            reveal_strlit("I");
            reveal_strlit("J");
            reveal_strlit("K");
            reveal_strlit("L");
            reveal_strlit("M");
            reveal_strlit("N");
            reveal_strlit("O");
            reveal_strlit("P");
            reveal_strlit("Q");
            reveal_strlit("R");
            reveal_strlit("S");
            reveal_strlit("T");
            reveal_strlit("U");
            reveal_strlit("V");
            reveal_strlit("W");
            reveal_strlit("X");
            reveal_strlit("Y");
            reveal_strlit("Z");
            reveal_strlit("0");
            reveal_strlit("1");
            reveal_strlit("2");
            reveal_strlit("3");
            reveal_strlit("4");
            reveal_strlit("5");
            reveal_strlit("6");
            reveal_strlit("7");
            reveal_strlit("8");
            reveal_strlit("9");
            reveal_strlit("_");
    }
    let r = match c {
            'a' | 'A' => "A",
            'b' | 'B' => "B",
            'c' | 'C' => "C",
            'd' | 'D' => "D",
            'e' | 'E' => "E",
            'f' | 'F' => "F",
            'g' | 'G' => "G",
            'h' | 'H' => "H",
            'i' | 'I' => "I",
            'j' | 'J' => "J",
            'k' | 'K' => "K",
            'l' | 'L' => "L",
            'm' | 'M' => "M",
            'n' | 'N' => "N",
            'o' | 'O' => "O",
            'p' | 'P' => "P",
            'q' | 'Q' => "Q",
            'r' | 'R' => "R",
            's' | 'S' => "S",
            't' | 'T' => "T",
            'u' | 'U' => "U",
            'v' | 'V' => "V",
            'w' | 'W' => "W",
            'x' | 'X' => "X",
            'y' | 'Y' => "Y",
            'z' | 'Z' => "Z",
            '0' => "0",
            '1' => "1",
            '2' => "2",
            '3' => "3",
            '4' => "4",
            '5' => "5",
            '6' => "6",
            '7' => "7",
            '8' => "8",
            '9' => "9",
            _ => "_",
    };
    assert(r@ =~= seq![identifier_char(c)]);
    r
}

/// Makes `name` into an identifier of the C language: letters become upper
/// case, digits stay, and every other character becomes an underscore.
pub fn to_c_identifier(name: &str) -> (r: String)
    ensures
        r@ == c_identifier(name@),
{
    let mut out = String::new();
    let count = name.unicode_len();
    let mut i: usize = 0;
    while i < count
        invariant
            i <= count == name@.len(),
            out@ == c_identifier(name@.subrange(0, i as int)),
        decreases count - i,
    {
        let c = name.get_char(i);
        let ghost before = out@;
        out.append(identifier_text(c));
        assert(out@ =~= c_identifier(name@.subrange(0, i + 1)));
        i += 1;
    }
    assert(name@.subrange(0, i as int) =~= name@);
    out
}

/// What stands at the head of every header.
pub open spec fn header_head() -> Seq<char> {
    "// Object IDs for the objects in the object pool.\n\n"@ + "#pragma once\n"@ + "#define UNDEFINED 65535\n"@
}

/// The line of the header for `object`: the word `#define`, the name under
/// which the object is shown as an identifier, and the object's number.
pub open spec fn header_line(names: Map<u16, Option<Seq<char>>>, object: ObjectView) -> Seq<char> {
    "#define "@ + c_identifier(shown_name_of(names, object)) + " "@ + decimal(object.id as nat) + "\n"@
}

/// The head of the header and the lines for the first `n` objects of `pool`.
pub open spec fn header_text(pool: Seq<ObjectView>, names: Map<u16, Option<Seq<char>>>, n: nat) -> Seq<char>
    decreases n,
{
    if n == 0 || n > pool.len() {
        header_head()
    } else {
        header_text(pool, names, (n - 1) as nat) + header_line(names, pool[n - 1])
    }
}

impl EditorProject {
    /// The header of object identifiers for the committed pool: after the
    /// head, one line for each object, in the order of the identifiers.
    pub fn header(&self) -> (r: String)
        ensures
            exists|sorted: Seq<ObjectView>|
                sorted_by_id(sorted) && sorted.to_multiset() == self@.pool.to_multiset() && r@ == #[trigger] header_text(
                    sorted,
                    self@.names,
                    sorted.len(),
                ),
    {
        let mut pool = self.get_pool().clone();
        pool.sort_by_id();
        let mut header = String::from_str("// Object IDs for the objects in the object pool.\n\n");
        header.append("#pragma once\n");
        header.append("#define UNDEFINED 65535\n");
        let objects = pool.objects();
        let mut i: usize = 0;
        while i < objects.len()
            invariant
                i <= objects@.len() == pool@.len(),
                forall|k: int| 0 <= k < objects@.len() ==> (#[trigger] objects@[k])@ == pool@[k],
                header@ == header_text(pool@, self@.names, i as nat),
            decreases objects@.len() - i,
        {
            let name = self.shown_name(&objects[i]);
            let identifier = to_c_identifier(name.as_str());
            let number = decimal_string(objects[i].id.value() as u128);
            header.append("#define ");
            header.append(identifier.as_str());
            header.append(" ");
            header.append(number.as_str());
            header.append("\n");
            assert(header@ =~= header_text(pool@, self@.names, i as nat) + header_line(self@.names, pool@[i as int]));
            i += 1;
        }
        header
    }
}

} // verus!
