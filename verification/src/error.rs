use vstd::prelude::*;

use crate::repr::JavaScriptType;
use crate::repr::TypeV;
use crate::repr::vw_pair_seq;
use crate::repr::vw_type;

verus! {

/// The view of a type-or-error result.
pub open spec fn vw_type_res(r: Result<JavaScriptType, TranslateError>) -> Result<TypeV, ErrV> {
    match r {
        Ok(t) => Ok(vw_type(t)),
        Err(e) => Err(e@),
    }
}

/// The view of a declarations-or-error result.
pub open spec fn vw_pairs_res(r: Result<Vec<(String, JavaScriptType)>, TranslateError>) -> Result<
    Seq<(Seq<char>, TypeV)>,
    ErrV,
> {
    match r {
        Ok(v) => Ok(vw_pair_seq(v@)),
        Err(e) => Err(e@),
    }
}

/// The view of a text-or-error result.
pub open spec fn vw_string_res(r: Result<String, TranslateError>) -> Result<Seq<char>, ErrV> {
    match r {
        Ok(s) => Ok(s@),
        Err(e) => Err(e@),
    }
}

/// Mathematical model of a translation error.
pub enum ErrV {
    InvalidReference(Seq<char>),
    CannotConvertSchemaToArray,
    UnsupportedSchemaShape(Seq<char>),
}

/// Why a schema document could not be translated. Every error is fatal: the
/// whole run aborts and no partial output is produced.
#[derive(Debug)]
pub enum TranslateError {
    /// A `$ref` that does not carry the exact local-reference prefix of its
    /// schema dialect, so it cannot be resolved to a declared name.
    InvalidReference(String),
    /// An array schema without an `items` entry, where the dialect demands
    /// one.
    CannotConvertSchemaToArray,
    /// A schema whose `type` names no supported kind, where the dialect is
    /// strict about it.
    UnsupportedSchemaShape(String),
}

impl View for TranslateError {
    type V = ErrV;

    open spec fn view(&self) -> ErrV {
        match *self {
            TranslateError::InvalidReference(s) => ErrV::InvalidReference(s@),
            TranslateError::CannotConvertSchemaToArray => ErrV::CannotConvertSchemaToArray,
            TranslateError::UnsupportedSchemaShape(s) => ErrV::UnsupportedSchemaShape(s@),
        }
    }
}

impl TranslateError {
    /// A short description of the error, for callers that report it.
    pub fn describe(&self) -> (r: String)
        ensures
            self@ matches ErrV::InvalidReference(s) ==> r@ == "unable to parse reference: "@ + s,
            self@ is CannotConvertSchemaToArray ==> r@
                == "unable to convert schema to an array type"@,
            self@ matches ErrV::UnsupportedSchemaShape(s) ==> r@
                == "schema with unsupported type: "@ + s,
    {
        match self {
            TranslateError::InvalidReference(s) => {
                let mut r = "unable to parse reference: ".to_owned();
                r.append(s.as_str());
                r
            },
            TranslateError::CannotConvertSchemaToArray => {
                "unable to convert schema to an array type".to_owned()
            },
            TranslateError::UnsupportedSchemaShape(s) => {
                let mut r = "schema with unsupported type: ".to_owned();
                r.append(s.as_str());
                r
            },
        }
    }
}

} // verus!
