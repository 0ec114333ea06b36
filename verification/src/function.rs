//! The function registry entry: an immutable, identifiable, named label
//! that tasks may reference.

use vstd::prelude::*;
use vstd::string::StringExecFns;
use vstd::utf8::is_ascii_chars;

use crate::text::default_name_seq;
use crate::text::make_default_name;

verus! {

/// A named label.  The stored `name` always carries exactly one trailing
/// null byte, so that it can cross a C calling convention unchanged.
pub struct Function {
    pub id: u64,
    pub name: String,
}

/// The mathematical value of a [`Function`].
#[verifier::ext_equal]
pub struct FunctionV {
    pub id: u64,
    pub name: Seq<char>,
}

impl View for Function {
    type V = FunctionV;

    open spec fn view(&self) -> FunctionV {
        FunctionV { id: self.id, name: self.name@ }
    }
}

impl FunctionV {
    /// Every stored name is pure ASCII and ends in a null byte.
    pub open spec fn wf(self) -> bool {
        &&& self.name.len() > 0
        &&& self.name.last() == '\0'
        &&& is_ascii_chars(self.name)
    }
}

impl Function {
    /// Validates that `name` is pure ASCII and appends the null terminator.
    /// A name that fails validation is rejected; no entity comes to be.
    pub fn new(id: u64, name: String) -> (r: Result<Function, &'static str>)
        ensures
            match r {
                Ok(f) => {
                    &&& is_ascii_chars(name@)
                    &&& f@.id == id
                    &&& f@.name == name@.push('\0')
                    &&& f@.wf()
                },
                Err(_) => !is_ascii_chars(name@),
            },
    {
        if !name.is_ascii() {
            return Err("string contains non ascii characters");
        }
        let ghost orig = name@;
        let mut name = name;
        name.append("\0");
        proof {
            reveal_strlit("\0");
            assert(name@ =~= orig.push('\0'));
        }
        Ok(Function { id, name })
    }

    /// The label made up for a blank input: `default_function_<id>`, with
    /// the null terminator already in place.
    pub fn with_default_name(id: u64) -> (r: Function)
        ensures
            r@.id == id,
            r@.name == default_name_seq(id as nat),
            r@.wf(),
    {
        proof {
            crate::text::lemma_default_name_wf(id as nat);
        }
        Function { id, name: make_default_name(id) }
    }

    /// The flattened form handed to the foreign boundary: the id and a view
    /// of the null-terminated name bytes.  The view borrows from the entity
    /// and must not be kept beyond its lifetime.
    pub fn into_raw_parts(&self) -> (r: (u64, &str))
        ensures
            r.0 == self@.id,
            r.1@ == self@.name,
    {
        (self.id, self.name.as_str())
    }
}

} // verus!
