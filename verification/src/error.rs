//! Error kinds and runtime errors of the virtual machine.
//!
//! [`ErrorKind`] is the compact category tag that appears in bytecode
//! (`Raise` instructions carry one, encoded as a single byte).
//! [`RuntimeError`] is the structured error that handlers return while the
//! machine runs; [`RuntimeError::display`] renders the user-visible
//! `KindName: message` form.

use vstd::prelude::*;
use vstd::string::StringExecFns;

verus! {

/// Compact category tag for errors, stable across the bytecode format.
#[derive(Clone, Copy, Debug, PartialEq, Eq, Structural)]
pub enum ErrorKind {
    /// Generic user-raised error.
    Generic,
    /// Syntax error surfacing at run time.
    Syntax,
    /// Type mismatch.
    Type,
    /// Undefined identifier reference.
    UndefinedIdent,
    /// Bad argument value.
    Value,
    /// Failure to import a module.
    ModuleImport,
}

/// The stable one-byte encoding of an [`ErrorKind`] in bytecode.
pub open spec fn kind_code(k: ErrorKind) -> u8 {
    match k {
        ErrorKind::Generic => 0,
        ErrorKind::Syntax => 1,
        ErrorKind::Type => 2,
        ErrorKind::UndefinedIdent => 3,
        ErrorKind::Value => 4,
        ErrorKind::ModuleImport => 5,
    }
}

/// The [`RuntimeError`] that an [`ErrorKind`] raises, carrying `msg`.
pub open spec fn kind_to_runtime(k: ErrorKind, msg: String) -> RuntimeError {
    match k {
        ErrorKind::Generic => RuntimeError::Raised(msg),
        ErrorKind::Syntax => RuntimeError::SyntaxError(msg),
        ErrorKind::Type => RuntimeError::TypeError(msg),
        ErrorKind::UndefinedIdent => RuntimeError::UndefinedIdentError(msg),
        ErrorKind::Value => RuntimeError::ValueError(msg),
        ErrorKind::ModuleImport => RuntimeError::ModuleImportError(msg),
    }
}

/// Is `e` the error that kind `k` raises with a message rendering as `msg`?
pub open spec fn kind_matches_runtime(k: ErrorKind, msg: Seq<char>, e: RuntimeError) -> bool {
    match k {
        ErrorKind::Generic => e matches RuntimeError::Raised(m) && m@ == msg,
        ErrorKind::Syntax => e matches RuntimeError::SyntaxError(m) && m@ == msg,
        ErrorKind::Type => e matches RuntimeError::TypeError(m) && m@ == msg,
        ErrorKind::UndefinedIdent => e matches RuntimeError::UndefinedIdentError(m) && m@ == msg,
        ErrorKind::Value => e matches RuntimeError::ValueError(m) && m@ == msg,
        ErrorKind::ModuleImport => e matches RuntimeError::ModuleImportError(m) && m@ == msg,
    }
}

impl ErrorKind {
    /// The byte under which this kind is written in bytecode.
    pub fn code(&self) -> (r: u8)
        ensures
            r == kind_code(*self),
    {
        match self {
            ErrorKind::Generic => 0,
            ErrorKind::Syntax => 1,
            ErrorKind::Type => 2,
            ErrorKind::UndefinedIdent => 3,
            ErrorKind::Value => 4,
            ErrorKind::ModuleImport => 5,
        }
    }

    /// Decode a kind from its bytecode byte; bytes above the last kind are
    /// not a kind.
    pub fn from_code(v: u8) -> (r: Option<ErrorKind>)
        ensures
            match r {
                Some(k) => kind_code(k) == v,
                None => v > 5,
            },
    {
        match v {
            0 => Some(ErrorKind::Generic),
            1 => Some(ErrorKind::Syntax),
            2 => Some(ErrorKind::Type),
            3 => Some(ErrorKind::UndefinedIdent),
            4 => Some(ErrorKind::Value),
            5 => Some(ErrorKind::ModuleImport),
            _ => None,
        }
    }

    /// Upgrade this kind into the structured [`RuntimeError`] carrying `msg`.
    pub fn into_runtime(self, msg: String) -> (r: RuntimeError)
        ensures
            r == kind_to_runtime(self, msg),
    {
        match self {
            ErrorKind::Generic => RuntimeError::Raised(msg),
            ErrorKind::Syntax => RuntimeError::SyntaxError(msg),
            ErrorKind::Type => RuntimeError::TypeError(msg),
            ErrorKind::UndefinedIdent => RuntimeError::UndefinedIdentError(msg),
            ErrorKind::Value => RuntimeError::ValueError(msg),
            ErrorKind::ModuleImport => RuntimeError::ModuleImportError(msg),
        }
    }
}

/// Structured runtime error, carried through execution and unwinding.
#[derive(Debug)]
pub enum RuntimeError {
    /// An `Assert` instruction saw a falsy top of stack.
    AssertionError,
    /// A write reached a frozen dictionary.
    FrozenWriteError,
    /// Out-of-range list or string access, or invalid slice bounds.
    IndexError(String),
    /// Missing dictionary key or attribute.
    KeyError(String),
    /// A module could not be read.
    ModuleImportError(String),
    /// Invalid syntax surfacing at run time.
    SyntaxError(String),
    /// An operation was applied to an inappropriate type.
    TypeError(String),
    /// An undefined identifier was referenced.
    UndefinedIdentError(String),
    /// A bad argument value.
    ValueError(String),
    /// Division or modulo with a zero divisor.
    ZeroDivisionError,
    /// A user-raised error.
    Raised(String),
    /// An internal machine invariant was violated (malformed bytecode).
    VmInvariant(String),
}

impl vstd::std_specs::cmp::PartialEqSpecImpl for RuntimeError {
    open spec fn obeys_eq_spec() -> bool {
        true
    }

    open spec fn eq_spec(&self, other: &RuntimeError) -> bool {
        match (self, other) {
            (RuntimeError::AssertionError, RuntimeError::AssertionError) => true,
            (RuntimeError::FrozenWriteError, RuntimeError::FrozenWriteError) => true,
            (RuntimeError::IndexError(a), RuntimeError::IndexError(b)) => a@ == b@,
            (RuntimeError::KeyError(a), RuntimeError::KeyError(b)) => a@ == b@,
            (RuntimeError::ModuleImportError(a), RuntimeError::ModuleImportError(b)) => a@ == b@,
            (RuntimeError::SyntaxError(a), RuntimeError::SyntaxError(b)) => a@ == b@,
            (RuntimeError::TypeError(a), RuntimeError::TypeError(b)) => a@ == b@,
            (RuntimeError::UndefinedIdentError(a), RuntimeError::UndefinedIdentError(b)) => a@
                == b@,
            (RuntimeError::ValueError(a), RuntimeError::ValueError(b)) => a@ == b@,
            (RuntimeError::ZeroDivisionError, RuntimeError::ZeroDivisionError) => true,
            (RuntimeError::Raised(a), RuntimeError::Raised(b)) => a@ == b@,
            (RuntimeError::VmInvariant(a), RuntimeError::VmInvariant(b)) => a@ == b@,
            _ => false,
        }
    }
}

impl PartialEq for RuntimeError {
    fn eq(&self, other: &RuntimeError) -> (r: bool) {
        match (self, other) {
            (RuntimeError::AssertionError, RuntimeError::AssertionError) => true,
            (RuntimeError::FrozenWriteError, RuntimeError::FrozenWriteError) => true,
            (RuntimeError::IndexError(a), RuntimeError::IndexError(b)) => *a == *b,
            (RuntimeError::KeyError(a), RuntimeError::KeyError(b)) => *a == *b,
            (RuntimeError::ModuleImportError(a), RuntimeError::ModuleImportError(b)) => *a == *b,
            (RuntimeError::SyntaxError(a), RuntimeError::SyntaxError(b)) => *a == *b,
            (RuntimeError::TypeError(a), RuntimeError::TypeError(b)) => *a == *b,
            (RuntimeError::UndefinedIdentError(a), RuntimeError::UndefinedIdentError(b)) => *a == *b,
            (RuntimeError::ValueError(a), RuntimeError::ValueError(b)) => *a == *b,
            (RuntimeError::ZeroDivisionError, RuntimeError::ZeroDivisionError) => true,
            (RuntimeError::Raised(a), RuntimeError::Raised(b)) => *a == *b,
            (RuntimeError::VmInvariant(a), RuntimeError::VmInvariant(b)) => *a == *b,
            _ => false,
        }
    }
}

/// The user-visible `KindName: message` rendering of an error.
pub open spec fn error_display(e: RuntimeError) -> Seq<char> {
    match e {
        RuntimeError::AssertionError => "AssertionError: assertion failed"@,
        RuntimeError::FrozenWriteError => "FrozenWriteError: Imported modules are read-only"@,
        RuntimeError::IndexError(m) => "IndexError: "@ + m@,
        RuntimeError::KeyError(k) => "KeyError: \"Key '"@ + k@ + "' not found\""@,
        RuntimeError::ModuleImportError(m) => "ModuleImportError: "@ + m@,
        RuntimeError::SyntaxError(m) => "SyntaxError: "@ + m@,
        RuntimeError::TypeError(m) => "TypeError: "@ + m@,
        RuntimeError::UndefinedIdentError(m) => "UndefinedIdentError: "@ + m@,
        RuntimeError::ValueError(m) => "ValueError: "@ + m@,
        RuntimeError::ZeroDivisionError => "ZeroDivisionError: integer division or modulo by zero"@,
        RuntimeError::Raised(m) => "RuntimeError: "@ + m@,
        RuntimeError::VmInvariant(m) => "VmInvariant: "@ + m@,
    }
}

impl RuntimeError {
    /// Render the error as `KindName: message`, the form a handler block
    /// observes on the operand stack and the form printed on failure.
    pub fn display(&self) -> (r: String)
        ensures
            r@ == error_display(*self),
    {
        match self {
            RuntimeError::AssertionError => String::from_str("AssertionError: assertion failed"),
            RuntimeError::FrozenWriteError => String::from_str(
                "FrozenWriteError: Imported modules are read-only",
            ),
            RuntimeError::IndexError(m) => {
                let mut r = String::from_str("IndexError: ");
                r.append(m.as_str());
                r
            },
            RuntimeError::KeyError(k) => {
                let mut r = String::from_str("KeyError: \"Key '");
                r.append(k.as_str());
                r.append("' not found\"");
                r
            },
            RuntimeError::ModuleImportError(m) => {
                let mut r = String::from_str("ModuleImportError: ");
                r.append(m.as_str());
                r
            },
            RuntimeError::SyntaxError(m) => {
                let mut r = String::from_str("SyntaxError: ");
                r.append(m.as_str());
                r
            },
            RuntimeError::TypeError(m) => {
                let mut r = String::from_str("TypeError: ");
                r.append(m.as_str());
                r
            },
            RuntimeError::UndefinedIdentError(m) => {
                let mut r = String::from_str("UndefinedIdentError: ");
                r.append(m.as_str());
                r
            },
            RuntimeError::ValueError(m) => {
                let mut r = String::from_str("ValueError: ");
                r.append(m.as_str());
                r
            },
            RuntimeError::ZeroDivisionError => String::from_str(
                "ZeroDivisionError: integer division or modulo by zero",
            ),
            RuntimeError::Raised(m) => {
                let mut r = String::from_str("RuntimeError: ");
                r.append(m.as_str());
                r
            },
            RuntimeError::VmInvariant(m) => {
                let mut r = String::from_str("VmInvariant: ");
                r.append(m.as_str());
                r
            },
        }
    }
}

} // verus!
