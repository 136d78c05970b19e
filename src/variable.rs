use vstd::prelude::*;

verus! {

/// Type of a variable of the data section.
#[derive(Debug, PartialEq, Eq, Clone, Copy)]
pub enum Type {
    NoType,
    U8,
    U16,
}

/// Bytes taken by one value of type `t`.
pub open spec fn type_size(t: Type) -> nat {
    match t {
        Type::NoType => 0,
        Type::U8 => 1,
        Type::U16 => 2,
    }
}

impl Type {
    /// Bytes taken by one value of this type.
    pub fn type_len(&self) -> (n: usize)
        ensures
            n == type_size(*self),
    {
        match *self {
            Type::NoType => 0,
            Type::U8 => 1,
            Type::U16 => 2,
        }
    }
}

/// Abstract state of a variable.
pub ghost struct VarView {
    pub data_type: Type,
    pub data: Seq<u8>,
    pub location: u16,
}

/// A variable of the data section: its type, its bytes and its offset in
/// the data placed after the code.
#[derive(Debug)]
pub struct Var {
    data_type: Type,
    data: Vec<u8>,
    location: u16,
}

impl View for Var {
    type V = VarView;

    closed spec fn view(&self) -> VarView {
        VarView { data_type: self.data_type, data: self.data@, location: self.location }
    }
}

impl Default for Var {
    fn default() -> (v: Self)
        ensures
            v@ == (VarView { data_type: Type::NoType, data: Seq::empty(), location: 0 }),
    {
        Self { data_type: Type::NoType, data: Vec::new(), location: 0 }
    }
}

impl Var {
    pub fn get_type(&self) -> (t: &Type)
        ensures
            *t == self@.data_type,
    {
        &self.data_type
    }

    pub fn set_type(&mut self, data_type: Type)
        ensures
            final(self)@ == (VarView { data_type, ..old(self)@ }),
    {
        self.data_type = data_type;
    }

    /// Bytes taken by one value of the variable's type.
    pub fn type_len(&self) -> (n: usize)
        ensures
            n == type_size(self@.data_type),
    {
        self.data_type.type_len()
    }

    pub fn get_location(&self) -> (l: &u16)
        ensures
            *l == self@.location,
    {
        &self.location
    }

    pub fn set_location(&mut self, location: u16)
        ensures
            final(self)@ == (VarView { location, ..old(self)@ }),
    {
        self.location = location;
    }

    /// Moves the bytes of `data` to the end of the variable's bytes.
    pub fn add_data(&mut self, data: &mut Vec<u8>)
        ensures
            final(self)@ == (VarView { data: old(self)@.data + old(data)@, ..old(self)@ }),
            final(data)@ == Seq::<u8>::empty(),
    {
        self.data.append(data);
    }

    pub fn get_data(&self) -> (d: &Vec<u8>)
        ensures
            d@ == self@.data,
    {
        &self.data
    }

    /// The variable's bytes, to change in place.
    pub fn get_data_mut(&mut self) -> (d: &mut Vec<u8>)
        ensures
            d@ == old(self)@.data,
            final(self)@ == (VarView { data: final(d)@, ..old(self)@ }),
    {
        &mut self.data
    }

    /// Number of bytes held.
    pub fn data_len(&self) -> (n: usize)
        ensures
            n == self@.data.len(),
    {
        self.data.len()
    }
}

} // verus!
