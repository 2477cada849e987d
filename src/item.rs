//! Gopher item types and their single-character wire codes.

use vstd::prelude::*;

verus! {

/// Possible types of Gopher directory items.
#[derive(Clone, Copy, Debug, PartialEq, Eq, Structural)]
pub enum Type {
    File,
    Directory,
    CSOPhoneBook,
    Error,
    BinHexed,
    BinArchive,
    UUEncoded,
    SearchServer,
    TelnetSession,
    Binary,
    RedundantServer,
    Tn3270Session,
    GIF,
    Image,
    Unknown(char),
}

/// The type that a wire code stands for.
pub open spec fn type_of_char(c: char) -> Type {
    if c == '0' {
        Type::File
    } else if c == '1' {
        Type::Directory
    } else if c == '2' {
        Type::CSOPhoneBook
    } else if c == '3' {
        Type::Error
    } else if c == '4' {
        Type::BinHexed
    } else if c == '5' {
        Type::BinArchive
    } else if c == '6' {
        Type::UUEncoded
    } else if c == '7' {
        Type::SearchServer
    } else if c == '8' {
        Type::TelnetSession
    } else if c == '9' {
        Type::Binary
    } else if c == '+' {
        Type::RedundantServer
    } else if c == 'T' {
        Type::Tn3270Session
    } else if c == 'g' {
        Type::GIF
    } else if c == 'I' {
        Type::Image
    } else {
        Type::Unknown(c)
    }
}

/// The wire code of a type.
pub open spec fn char_of_type(t: Type) -> char {
    match t {
        Type::File => '0',
        Type::Directory => '1',
        Type::CSOPhoneBook => '2',
        Type::Error => '3',
        Type::BinHexed => '4',
        Type::BinArchive => '5',
        Type::UUEncoded => '6',
        Type::SearchServer => '7',
        Type::TelnetSession => '8',
        Type::Binary => '9',
        Type::RedundantServer => '+',
        Type::Tn3270Session => 'T',
        Type::GIF => 'g',
        Type::Image => 'I',
        Type::Unknown(c) => c,
    }
}

/// A code that names one of the protocol's own types.
pub open spec fn is_known_char(c: char) -> bool {
    !(type_of_char(c) is Unknown)
}

/// A type as parsing can produce it: `Unknown` only holds a code that names
/// no known type.
pub open spec fn is_canonical(t: Type) -> bool {
    match t {
        Type::Unknown(c) => !is_known_char(c),
        _ => true,
    }
}

/// The types that `is_file` reports.
pub open spec fn spec_is_file(t: Type) -> bool {
    match t {
        Type::Directory | Type::CSOPhoneBook | Type::Error | Type::SearchServer
        | Type::TelnetSession | Type::Tn3270Session | Type::RedundantServer
        | Type::Unknown(_) => true,
        _ => false,
    }
}

impl Type {
    /// Whether this is a directory item.
    pub fn is_directory(&self) -> (r: bool)
        ensures
            r == (*self is Directory),
    {
        match self {
            Type::Directory => true,
            _ => false,
        }
    }

    /// Whether the type is one of directory, phone book, error, search
    /// server, telnet or tn3270 session, mirror server, or an unknown code.
    pub fn is_file(&self) -> (r: bool)
        ensures
            r == spec_is_file(*self),
    {
        match self {
            Type::Directory | Type::CSOPhoneBook | Type::Error | Type::SearchServer
            | Type::TelnetSession | Type::Tn3270Session | Type::RedundantServer
            | Type::Unknown(_) => true,
            _ => false,
        }
    }

    /// Converts a wire code into a type.
    pub fn from_char(c: char) -> (r: Type)
        ensures
            r == type_of_char(c),
            is_canonical(r),
    {
        match c {
            '0' => Type::File,
            '1' => Type::Directory,
            '2' => Type::CSOPhoneBook,
            '3' => Type::Error,
            '4' => Type::BinHexed,
            '5' => Type::BinArchive,
            '6' => Type::UUEncoded,
            '7' => Type::SearchServer,
            '8' => Type::TelnetSession,
            '9' => Type::Binary,
            '+' => Type::RedundantServer,
            'T' => Type::Tn3270Session,
            'g' => Type::GIF,
            'I' => Type::Image,
            other => Type::Unknown(other),
        }
    }

    /// Converts a type back into its wire code.
    pub fn as_char(&self) -> (r: char)
        ensures
            r == char_of_type(*self),
    {
        match self {
            Type::File => '0',
            Type::Directory => '1',
            Type::CSOPhoneBook => '2',
            Type::Error => '3',
            Type::BinHexed => '4',
            Type::BinArchive => '5',
            Type::UUEncoded => '6',
            Type::SearchServer => '7',
            Type::TelnetSession => '8',
            Type::Binary => '9',
            Type::RedundantServer => '+',
            Type::Tn3270Session => 'T',
            Type::GIF => 'g',
            Type::Image => 'I',
            Type::Unknown(other) => *other,
        }
    }
}

/// Reading a code and writing it back gives the same code, whatever it is;
/// in particular a code outside the known set is kept as it was.
pub proof fn lemma_char_round_trip(c: char)
    ensures
        char_of_type(type_of_char(c)) == c,
        !is_known_char(c) ==> type_of_char(c) == Type::Unknown(c),
{
}

/// Writing a canonical type and reading the code back gives the same type.
pub proof fn lemma_type_round_trip(t: Type)
    requires
        is_canonical(t),
    ensures
        type_of_char(char_of_type(t)) == t,
{
}

} // verus!
