//! The error translator: every native failure is classified by a closed
//! error type, carries a stable numeric code, and is rendered into a single
//! managed exception of the form `(code, "description (code)")`.

use vstd::prelude::*;

verus! {

/// The closed classification of bridge and store failures.
#[derive(Clone, Copy, Debug, PartialEq, Eq, Structural)]
pub enum BridgeError {
    /// The repository, file or path does not exist.
    NotFound,
    /// The target already exists and exclusive creation was requested.
    AlreadyExists,
    /// The supplied password does not open the repository.
    InvalidPassword,
    /// The repository was opened read-only and a mutation was requested.
    ReadOnly,
    /// The file handle was not opened for reading.
    CannotRead,
    /// The file handle was not opened for writing.
    CannotWrite,
    /// The path is unrooted or null and was rejected before any native call.
    InvalidPath,
    /// The managed object has no native resource attached.
    NoResourceAttached,
    /// The attached resource is of another kind than the operation needs.
    WrongResourceKind,
    /// An argument was out of range, such as a seek before the start.
    InvalidArgument,
    /// The requested historical version does not exist.
    NoVersion,
    /// The path names a directory where a file was needed.
    NotFile,
    /// The path names a file where a directory was needed.
    NotDir,
    /// The directory is not empty and cannot be removed.
    NotEmpty,
    /// The store root cannot be removed or replaced.
    IsRoot,
}

/// The stable numeric code of each error classification.
pub open spec fn spec_error_code(e: BridgeError) -> i32 {
    match e {
        BridgeError::NotFound => 1001,
        BridgeError::AlreadyExists => 1002,
        BridgeError::InvalidPassword => 1003,
        BridgeError::ReadOnly => 1004,
        BridgeError::CannotRead => 1005,
        BridgeError::CannotWrite => 1006,
        BridgeError::InvalidPath => 1007,
        BridgeError::NoResourceAttached => 1008,
        BridgeError::WrongResourceKind => 1009,
        BridgeError::InvalidArgument => 1010,
        BridgeError::NoVersion => 1011,
        BridgeError::NotFile => 1012,
        BridgeError::NotDir => 1013,
        BridgeError::NotEmpty => 1014,
        BridgeError::IsRoot => 1015,
    }
}

/// The human-readable description of each error classification.
pub open spec fn spec_description(e: BridgeError) -> Seq<char> {
    match e {
        BridgeError::NotFound => "item not found"@,
        BridgeError::AlreadyExists => "item already exists"@,
        BridgeError::InvalidPassword => "invalid password"@,
        BridgeError::ReadOnly => "repository is read only"@,
        BridgeError::CannotRead => "file cannot read"@,
        BridgeError::CannotWrite => "file cannot write"@,
        BridgeError::InvalidPath => "invalid path"@,
        BridgeError::NoResourceAttached => "no resource attached"@,
        BridgeError::WrongResourceKind => "wrong resource kind"@,
        BridgeError::InvalidArgument => "invalid argument"@,
        BridgeError::NoVersion => "version not found"@,
        BridgeError::NotFile => "path is not a file"@,
        BridgeError::NotDir => "path is not a directory"@,
        BridgeError::NotEmpty => "directory is not empty"@,
        BridgeError::IsRoot => "path is root directory"@,
    }
}

impl BridgeError {
    /// Returns the stable numeric code of this classification.
    pub fn code(&self) -> (r: i32)
        ensures
            r == spec_error_code(*self),
    {
        match self {
            BridgeError::NotFound => 1001,
            BridgeError::AlreadyExists => 1002,
            BridgeError::InvalidPassword => 1003,
            BridgeError::ReadOnly => 1004,
            BridgeError::CannotRead => 1005,
            BridgeError::CannotWrite => 1006,
            BridgeError::InvalidPath => 1007,
            BridgeError::NoResourceAttached => 1008,
            BridgeError::WrongResourceKind => 1009,
            BridgeError::InvalidArgument => 1010,
            BridgeError::NoVersion => 1011,
            BridgeError::NotFile => 1012,
            BridgeError::NotDir => 1013,
            BridgeError::NotEmpty => 1014,
            BridgeError::IsRoot => 1015,
        }
    }

    /// Returns the human-readable description of this classification.
    pub fn description(&self) -> (r: &'static str)
        ensures
            r@ == spec_description(*self),
    {
        match self {
            BridgeError::NotFound => "item not found",
            BridgeError::AlreadyExists => "item already exists",
            BridgeError::InvalidPassword => "invalid password",
            BridgeError::ReadOnly => "repository is read only",
            BridgeError::CannotRead => "file cannot read",
            BridgeError::CannotWrite => "file cannot write",
            BridgeError::InvalidPath => "invalid path",
            BridgeError::NoResourceAttached => "no resource attached",
            BridgeError::WrongResourceKind => "wrong resource kind",
            BridgeError::InvalidArgument => "invalid argument",
            BridgeError::NoVersion => "version not found",
            BridgeError::NotFile => "path is not a file",
            BridgeError::NotDir => "path is not a directory",
            BridgeError::NotEmpty => "directory is not empty",
            BridgeError::IsRoot => "path is root directory",
        }
    }
}

/// Error codes never collide: distinct classifications carry distinct codes.
pub proof fn lemma_error_codes_distinct()
    ensures
        forall|e1: BridgeError, e2: BridgeError|
            spec_error_code(e1) == spec_error_code(e2) ==> e1 == e2,
{
}

/// The decimal digit character for a value below ten.
pub open spec fn spec_digit(d: nat) -> char {
    if d == 0 {
        '0'
    } else if d == 1 {
        '1'
    } else if d == 2 {
        '2'
    } else if d == 3 {
        '3'
    } else if d == 4 {
        '4'
    } else if d == 5 {
        '5'
    } else if d == 6 {
        '6'
    } else if d == 7 {
        '7'
    } else if d == 8 {
        '8'
    } else {
        '9'
    }
}

/// The decimal rendering of a natural number, most significant digit first.
pub open spec fn spec_dec_digits(n: nat) -> Seq<char>
    decreases n,
{
    if n < 10 {
        seq![spec_digit(n)]
    } else {
        spec_dec_digits(n / 10).push(spec_digit(n % 10))
    }
}

/// Returns the one-character string for a decimal digit.
fn digit_str(d: u32) -> (r: &'static str)
    requires
        d < 10,
    ensures
        r@ == seq![spec_digit(d as nat)],
{
    proof {
        reveal_strlit("0");
        reveal_strlit("1");
        reveal_strlit("2");
        reveal_strlit("3");
        reveal_strlit("4");
        reveal_strlit("5");
        reveal_strlit("6");
        reveal_strlit("7");
        reveal_strlit("8");
        reveal_strlit("9");
    }
    match d {
        0 => "0",
        1 => "1",
        2 => "2",
        3 => "3",
        4 => "4",
        5 => "5",
        6 => "6",
        7 => "7",
        8 => "8",
        _ => "9",
    }
}

/// Renders a number in decimal, exactly as `spec_dec_digits` states.
pub fn render_u32(n: u32) -> (r: String)
    ensures
        r@ == spec_dec_digits(n as nat),
    decreases n,
{
    if n < 10 {
        String::from_str(digit_str(n))
    } else {
        let hi = render_u32(n / 10);
        let lo = digit_str(n % 10);
        let r = hi.concat(lo);
        proof {
            assert(r@ =~= spec_dec_digits((n / 10) as nat).push(spec_digit((n % 10) as nat)));
        }
        r
    }
}

/// The single managed exception the bridge raises for every failure,
/// carrying the stable numeric code and a rendered message.
pub struct BridgeException {
    pub code: i32,
    pub message: String,
}

/// The message an exception carries: the chosen base text followed by the
/// numeric code in parentheses.
pub open spec fn spec_exception_message(base: Seq<char>, code: i32) -> Seq<char>
    recommends
        code >= 0,
{
    base + " ("@ + spec_dec_digits(code as nat) + ")"@
}

/// Translates a native failure into the managed exception.  When a nested
/// managed callback already raised an exception, its rendered description
/// (handed in as `pending`) takes priority over the native description;
/// either way the stable numeric code of the native classification is kept
/// and appended to the message.
pub fn translate(err: &BridgeError, pending: Option<String>) -> (r: BridgeException)
    ensures
        r.code == spec_error_code(*err),
        r.message@ == spec_exception_message(
            match pending {
                Some(p) => p@,
                None => spec_description(*err),
            },
            spec_error_code(*err),
        ),
{
    let code = err.code();
    let base = match pending {
        Some(p) => p,
        None => String::from_str(err.description()),
    };
    let digits = render_u32(code as u32);
    let msg = base.concat(" (").concat(digits.as_str()).concat(")");
    BridgeException { code, message: msg }
}

} // verus!
