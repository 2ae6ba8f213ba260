//! The ambient types of values, modeled only as far as display needs them:
//! scalar lanes, references, function references, and (possibly nested)
//! array types carrying one element type per lane.

use crate::text::{dec_str, u32_str};
use vstd::prelude::*;

verus! {

/// A type usable in display.
#[derive(Debug)]
pub enum Type {
    /// The native field element type.
    Field,
    /// An unsigned integer of the given bit width.
    Unsigned { bit_size: u32 },
    /// A signed integer of the given bit width.
    Signed { bit_size: u32 },
    /// A mutable reference to a value of the inner type.
    Reference(Box<Type>),
    /// A function, intrinsic or foreign-function reference.
    Function,
    /// An array: one element type per lane, and a length.
    Array { element_types: Vec<Type>, length: u32 },
}

/// Canonical text of a type.
pub open spec fn typ_text(t: Type) -> Seq<char>
    decreases t, 1int, 0int,
{
    match t {
        Type::Field => "Field"@,
        Type::Unsigned { bit_size } => "u"@ + dec_str(bit_size as int),
        Type::Signed { bit_size } => "i"@ + dec_str(bit_size as int),
        Type::Reference(inner) => "&mut "@ + typ_text(*inner),
        Type::Function => "function"@,
        Type::Array { element_types, length } => typ_list_text(element_types@, 0, "["@) + "; "@
            + dec_str(length as int) + "]"@,
    }
}

/// Texts of the types of `ts` from position `i` on, separated by `", "`,
/// appended to `acc` (which holds the texts of the positions before `i`).
pub open spec fn typ_list_text(ts: Seq<Type>, i: int, acc: Seq<char>) -> Seq<char>
    decreases ts, 0int, ts.len() - i,
{
    if i < 0 || i >= ts.len() {
        acc
    } else {
        let sep: Seq<char> = if i == 0 {
            Seq::empty()
        } else {
            ", "@
        };
        typ_list_text(ts, i + 1, acc + sep + typ_text(ts[i]))
    }
}

/// Renders the types of `ts`, separated by `", "`, onto the end of `out`.
#[verifier::loop_isolation(false)]
pub fn append_typ_list(ts: &Vec<Type>, out: &mut String)
    ensures
        final(out)@ == typ_list_text(ts@, 0, old(out)@),
{
    let n = ts.len();
    let mut i: usize = 0;
    while i < n
        invariant
            i <= n,
            typ_list_text(ts@, i as int, out@) == typ_list_text(ts@, 0, old(out)@),
        decreases n - i,
    {
        if i > 0 {
            out.append(", ");
        }
        let piece = type_text(&ts[i]);
        out.append(piece.as_str());
        i = i + 1;
    }
}

/// Renders a type as its canonical text.
pub fn type_text(t: &Type) -> (r: String)
    ensures
        r@ == typ_text(*t),
    decreases *t, 1int, 0int,
{
    match t {
        Type::Field => String::from_str("Field"),
        Type::Unsigned { bit_size } => {
            let mut s = String::from_str("u");
            let num = u32_str(*bit_size);
            s.append(num.as_str());
            s
        },
        Type::Signed { bit_size } => {
            let mut s = String::from_str("i");
            let num = u32_str(*bit_size);
            s.append(num.as_str());
            s
        },
        Type::Reference(inner) => {
            let mut s = String::from_str("&mut ");
            let t2 = type_text(inner);
            s.append(t2.as_str());
            s
        },
        Type::Function => String::from_str("function"),
        Type::Array { element_types, length } => {
            let mut s = String::from_str("[");
            let n = element_types.len();
            let mut i: usize = 0;
            while i < n
                invariant
                    i <= n,
                    n == element_types@.len(),
                    t is Array,
                    element_types@ == t->Array_element_types@,
                    typ_list_text(element_types@, i as int, s@) == typ_list_text(
                        element_types@,
                        0,
                        "["@,
                    ),
                decreases n - i,
            {
                if i > 0 {
                    s.append(", ");
                }
                proof {
                    assert(decreases_to!(*t => t->Array_element_types));
                }
                let piece = type_text(&element_types[i]);
                s.append(piece.as_str());
                i = i + 1;
            }
            s.append("; ");
            let num = u32_str(*length);
            s.append(num.as_str());
            s.append("]");
            s
        },
    }
}

} // verus!
