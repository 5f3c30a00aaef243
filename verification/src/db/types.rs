//! Basic database types: handles to rows and columns, and the types of the
//! values a column holds (strings, 64-bit integers, booleans, doubles).
use vstd::prelude::*;

verus! {

/// A handle to a table row: its index into each column.
#[derive(Debug, Clone, Copy, PartialEq, Eq, Hash, Structural)]
pub struct RowId {
    pub idx: usize,
}

/// A handle to a table column: its index among the columns of its type.
#[derive(Debug, Clone, Copy, PartialEq, Eq, Hash, Structural)]
pub struct ColId {
    pub idx: usize,
    pub ty: DbType,
}

/// A type a column can hold. Every value may also be null.
#[derive(Debug, Clone, Copy, PartialEq, Eq, Hash, Structural)]
pub enum DbType {
    String,
    Integer,
    Boolean,
    Double,
}

impl DbType {
    /// The type's name, as it is printed.
    pub fn name(&self) -> (s: &'static str)
        ensures
            s@ == match self {
                DbType::String => "String"@,
                DbType::Integer => "Integer"@,
                DbType::Boolean => "Boolean"@,
                DbType::Double => "Double"@,
            },
    {
        match self {
            DbType::String => "String",
            DbType::Integer => "Integer",
            DbType::Boolean => "Boolean",
            DbType::Double => "Double",
        }
    }
}

/// A non-null value a column holds. A double is held by its IEEE 754 bit
/// pattern (`f64::to_bits`), so that the library handles it as an integer.
#[derive(Debug, PartialEq)]
pub enum DbVal {
    String(String),
    Integer(i64),
    Boolean(bool),
    Double(u64),
}

/// A reference to a value held in a table with lifetime `'a`.
#[derive(Debug, Clone, Copy, PartialEq)]
pub enum DbRef<'a> {
    String(&'a String),
    Integer(&'a i64),
    Boolean(&'a bool),
    Double(&'a u64),
}

/// A mutable reference to a value held in a table with lifetime `'a`.
#[derive(Debug, PartialEq)]
pub enum DbMut<'a> {
    String(&'a mut String),
    Integer(&'a mut i64),
    Boolean(&'a mut bool),
    Double(&'a mut u64),
}

impl DbVal {
    /// The type of the value.
    pub open spec fn type_of(self) -> DbType {
        match self {
            DbVal::String(_) => DbType::String,
            DbVal::Integer(_) => DbType::Integer,
            DbVal::Boolean(_) => DbType::Boolean,
            DbVal::Double(_) => DbType::Double,
        }
    }

    /// The type of the value.
    pub fn ty(&self) -> (t: DbType)
        ensures
            t == self.type_of(),
    {
        match self {
            DbVal::String(_) => DbType::String,
            DbVal::Integer(_) => DbType::Integer,
            DbVal::Boolean(_) => DbType::Boolean,
            DbVal::Double(_) => DbType::Double,
        }
    }

    /// A reference to this value.
    pub fn as_ref<'a>(&'a self) -> (r: DbRef<'a>)
        ensures
            r.value() == *self,
    {
        match self {
            DbVal::String(v) => DbRef::String(v),
            DbVal::Integer(v) => DbRef::Integer(v),
            DbVal::Boolean(v) => DbRef::Boolean(v),
            DbVal::Double(v) => DbRef::Double(v),
        }
    }

    /// A mutable reference to this value: what is written through it is
    /// what the value holds afterwards.
    pub fn as_mut<'a>(&'a mut self) -> (r: DbMut<'a>)
        ensures
            r.value() == *old(self),
            match r {
                DbMut::String(v) => *final(self) == DbVal::String(*final(v)),
                DbMut::Integer(v) => *final(self) == DbVal::Integer(*final(v)),
                DbMut::Boolean(v) => *final(self) == DbVal::Boolean(*final(v)),
                DbMut::Double(v) => *final(self) == DbVal::Double(*final(v)),
            },
    {
        match self {
            DbVal::String(v) => DbMut::String(v),
            DbVal::Integer(v) => DbMut::Integer(v),
            DbVal::Boolean(v) => DbMut::Boolean(v),
            DbVal::Double(v) => DbMut::Double(v),
        }
    }

    /// The string this value holds; it must be a string.
    pub fn into_string(self) -> (v: String)
        requires
            self is String,
        ensures
            self == DbVal::String(v),
    {
        match self {
            DbVal::String(v) => v,
            _ => String::new(),
        }
    }

    /// The integer this value holds; it must be an integer.
    pub fn into_integer(self) -> (v: i64)
        requires
            self is Integer,
        ensures
            self == DbVal::Integer(v),
    {
        match self {
            DbVal::Integer(v) => v,
            _ => 0,
        }
    }

    /// The boolean this value holds; it must be a boolean.
    pub fn into_boolean(self) -> (v: bool)
        requires
            self is Boolean,
        ensures
            self == DbVal::Boolean(v),
    {
        match self {
            DbVal::Boolean(v) => v,
            _ => false,
        }
    }

    /// The bit pattern of the double this value holds; it must be a double.
    pub fn into_double(self) -> (v: u64)
        requires
            self is Double,
        ensures
            self == DbVal::Double(v),
    {
        match self {
            DbVal::Double(v) => v,
            _ => 0,
        }
    }
}

impl Clone for DbVal {
    /// The same value.
    fn clone(&self) -> (r: Self)
        ensures
            r == *self,
    {
        match self {
            DbVal::String(v) => DbVal::String(v.clone()),
            DbVal::Integer(v) => DbVal::Integer(*v),
            DbVal::Boolean(v) => DbVal::Boolean(*v),
            DbVal::Double(v) => DbVal::Double(*v),
        }
    }
}

impl<'a> DbRef<'a> {
    /// The value referred to.
    pub open spec fn value(self) -> DbVal {
        match self {
            DbRef::String(v) => DbVal::String(*v),
            DbRef::Integer(v) => DbVal::Integer(*v),
            DbRef::Boolean(v) => DbVal::Boolean(*v),
            DbRef::Double(v) => DbVal::Double(*v),
        }
    }

    /// An owned copy of the value referred to.
    pub fn to_owned(&self) -> (v: DbVal)
        ensures
            v == self.value(),
    {
        match self {
            DbRef::String(v) => DbVal::String((*v).clone()),
            DbRef::Integer(v) => DbVal::Integer(**v),
            DbRef::Boolean(v) => DbVal::Boolean(**v),
            DbRef::Double(v) => DbVal::Double(**v),
        }
    }
}

impl<'a> DbMut<'a> {
    /// The value referred to.
    pub open spec fn value(self) -> DbVal {
        match self {
            DbMut::String(v) => DbVal::String(*v),
            DbMut::Integer(v) => DbVal::Integer(*v),
            DbMut::Boolean(v) => DbVal::Boolean(*v),
            DbMut::Double(v) => DbVal::Double(*v),
        }
    }

    /// An owned copy of the value referred to.
    pub fn to_owned(&self) -> (v: DbVal)
        ensures
            v == self.value(),
    {
        match self {
            DbMut::String(v) => DbVal::String((**v).clone()),
            DbMut::Integer(v) => DbVal::Integer(**v),
            DbMut::Boolean(v) => DbVal::Boolean(**v),
            DbMut::Double(v) => DbVal::Double(**v),
        }
    }
}

use vstd::std_specs::convert::FromSpecImpl;

impl From<String> for DbVal {
    fn from(value: String) -> (r: Self) {
        DbVal::String(value)
    }
}

impl FromSpecImpl<String> for DbVal {
    open spec fn obeys_from_spec() -> bool {
        true
    }

    open spec fn from_spec(v: String) -> DbVal {
        DbVal::String(v)
    }
}

impl From<i64> for DbVal {
    fn from(value: i64) -> (r: Self) {
        DbVal::Integer(value)
    }
}

impl FromSpecImpl<i64> for DbVal {
    open spec fn obeys_from_spec() -> bool {
        true
    }

    open spec fn from_spec(v: i64) -> DbVal {
        DbVal::Integer(v)
    }
}

impl From<bool> for DbVal {
    fn from(value: bool) -> (r: Self) {
        DbVal::Boolean(value)
    }
}

impl FromSpecImpl<bool> for DbVal {
    open spec fn obeys_from_spec() -> bool {
        true
    }

    open spec fn from_spec(v: bool) -> DbVal {
        DbVal::Boolean(v)
    }
}

impl From<&str> for DbVal {
    /// A string value with the characters of `value`.
    fn from(value: &str) -> (r: Self)
        ensures
            r matches DbVal::String(s) && s@ == value@,
    {
        DbVal::String(value.to_owned())
    }
}

/// Two strings with the same characters need not be the same `String` to
/// Verus, so the conversion from `&str` is described by its own `ensures`
/// rather than by a single value.
impl FromSpecImpl<&str> for DbVal {
    open spec fn obeys_from_spec() -> bool {
        false
    }

    open spec fn from_spec(v: &str) -> DbVal {
        arbitrary()
    }
}

} // verus!
