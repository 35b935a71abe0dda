//! Arrays of variables: one that owns its variables and one that borrows
//! variables owned elsewhere, behind one way of access.
use crate::Variable;
use std::marker::PhantomData;
use vstd::prelude::*;

verus! {

/// This trait describes an array of variables. There are two types of array:
/// array of variables and array of references to variables. Both types are manipulated with the
/// same trait. When writing constraints over an array of variables, you should use this
/// trait instead of the specific types `ArrayOfVars` or `ArrayOfRefs`.
pub trait ArrayOfVariables<Type, ArrayVar> where ArrayVar: Variable<Type> {
    /// The variables of the array, by position.
    spec fn vars(&self) -> Seq<ArrayVar>;

    /// Returns a mutable reference to the variable at that position or None if out of bounds.
    /// What is written through the reference is the only thing that changes
    /// in the array.
    fn get_mut(&mut self, position: usize) -> (r: Option<&mut ArrayVar>)
        ensures
            position >= old(self).vars().len() ==> r is None && final(self).vars() == old(
                self,
            ).vars(),
            position < old(self).vars().len() ==> r is Some && *r.unwrap() == old(self).vars()[position as int]
                && final(self).vars() == old(self).vars().update(
                position as int,
                *final(r.unwrap()),
            ),
    ;

    /// Returns a reference to the variable at that position or None if out of bounds.
    fn get(&self, position: usize) -> (r: Option<&ArrayVar>)
        ensures
            r == (if position < self.vars().len() {
                Some(&self.vars()[position as int])
            } else {
                None
            }),
    ;

    /// Returns a mutable reference to the variable at a position that is
    /// known to be within bounds.
    fn get_unchecked_mut(&mut self, position: usize) -> (r: &mut ArrayVar)
        requires
            position < old(self).vars().len(),
        ensures
            *r == old(self).vars()[position as int],
            final(self).vars() == old(self).vars().update(position as int, *final(r)),
    ;

    /// Returns a reference to the variable at a position that is known to be
    /// within bounds.
    fn get_unchecked(&self, position: usize) -> (r: &ArrayVar)
        requires
            position < self.vars().len(),
        ensures
            *r == self.vars()[position as int],
    ;

    /// Returns references to the variables, by position.
    fn iter(&self) -> (r: Vec<&ArrayVar>)
        ensures
            r@.len() == self.vars().len(),
            forall|i: int| 0 <= i < r@.len() ==> *(#[trigger] r@[i]) == self.vars()[i],
    ;

    /// Returns the number of variables.
    fn len(&self) -> (r: usize)
        ensures
            r == self.vars().len(),
    ;

    /// Returns whether the array holds no variable.
    fn is_empty(&self) -> (r: bool)
        ensures
            r == (self.vars().len() == 0),
    {
        self.len() == 0usize
    }
}

/// Represents an array of `Variable`.
pub struct ArrayOfVars<Type, Var> where Var: Variable<Type> {
    /// The array of `Variable`.
    variables: Vec<Var>,
    _type: PhantomData<Type>,
}

impl<Type, Var> ArrayOfVars<Type, Var> where Var: Variable<Type> {
    /// Creates a new `ArrayOfVars` of `len` copies of a variable.
    ///
    /// # Arguments
    /// *`len` - The number of variables.
    /// *`var` - The prototype of variable used to fill the array.
    pub fn new(len: usize, var: Var) -> (r: Option<Self>)
        ensures
            r matches Some(array) && array.vars().len() == len && forall|i: int|
                0 <= i < len ==> cloned(var, #[trigger] array.vars()[i]),
    {
        let mut variables: Vec<Var> = Vec::new();
        let mut i: usize = 0;
        while i < len
            invariant
                i <= len,
                variables@.len() == i,
                forall|k: int| 0 <= k < i ==> cloned(var, #[trigger] variables@[k]),
            decreases len - i,
        {
            variables.push(var.clone());
            i += 1;
        }
        Some(ArrayOfVars { variables, _type: PhantomData })
    }

    /// Creates a new `ArrayOfVars` that holds the variables of `var`, in
    /// their order.
    ///
    /// # Arguments
    /// *`var` - The variables.
    pub fn new_from_iter(var: Vec<Var>) -> (r: Option<Self>)
        ensures
            r matches Some(array) && array.vars() == var@,
    {
        Some(ArrayOfVars { variables: var, _type: PhantomData })
    }
}

impl<Type, Var> ArrayOfVariables<Type, Var> for ArrayOfVars<Type, Var> where Var: Variable<Type> {
    closed spec fn vars(&self) -> Seq<Var> {
        self.variables@
    }

    fn get_mut(&mut self, position: usize) -> (r: Option<&mut Var>) {
        if position < self.variables.len() {
            Some(&mut self.variables[position])
        } else {
            None
        }
    }

    fn get(&self, position: usize) -> (r: Option<&Var>) {
        if position < self.variables.len() {
            Some(&self.variables[position])
        } else {
            None
        }
    }

    fn get_unchecked_mut(&mut self, position: usize) -> (r: &mut Var) {
        &mut self.variables[position]
    }

    fn get_unchecked(&self, position: usize) -> (r: &Var) {
        &self.variables[position]
    }

    fn iter(&self) -> (r: Vec<&Var>) {
        let mut refs: Vec<&Var> = Vec::new();
        let mut i: usize = 0;
        while i < self.variables.len()
            invariant
                i <= self.variables@.len(),
                refs@.len() == i,
                forall|k: int| 0 <= k < i ==> *(#[trigger] refs@[k]) == self.variables@[k],
            decreases self.variables@.len() - i,
        {
            refs.push(&self.variables[i]);
            i += 1;
        }
        refs
    }

    fn len(&self) -> (r: usize) {
        self.variables.len()
    }
}

/// Represents an array of references to `Variable`: the variables are owned
/// elsewhere and borrowed for as long as the array lives.
pub struct ArrayOfRefs<'a, Type, Var> where Var: Variable<Type> {
    /// The array of references to `Variable`.
    variables: Vec<&'a mut Var>,
    _type: PhantomData<Type>,
}

impl<'a, Type, Var> ArrayOfRefs<'a, Type, Var> where Var: Variable<Type> {
    /// Creates a new `ArrayOfRefs` over the variables that are referred to.
    ///
    /// # Argument
    /// *`variables` - Vector of references to variables.
    pub fn new(variables: Vec<&'a mut Var>) -> (r: Option<Self>)
        ensures
            r matches Some(array) && array.vars().len() == variables@.len() && forall|i: int|
                0 <= i < variables@.len() ==> #[trigger] array.vars()[i] == *variables@[i],
    {
        Some(ArrayOfRefs { variables, _type: PhantomData })
    }
}

impl<'a, Type, Var> ArrayOfVariables<Type, Var> for ArrayOfRefs<'a, Type, Var> where
    Var: Variable<Type>,
 {
    closed spec fn vars(&self) -> Seq<Var> {
        Seq::new(self.variables@.len(), |i: int| *self.variables@[i])
    }

    fn get_mut(&mut self, position: usize) -> (r: Option<&mut Var>) {
        if position < self.variables.len() {
            Some(&mut *self.variables[position])
        } else {
            None
        }
    }

    fn get(&self, position: usize) -> (r: Option<&Var>) {
        if position < self.variables.len() {
            Some(&*self.variables[position])
        } else {
            None
        }
    }

    fn get_unchecked_mut(&mut self, position: usize) -> (r: &mut Var) {
        &mut *self.variables[position]
    }

    fn get_unchecked(&self, position: usize) -> (r: &Var) {
        &*self.variables[position]
    }

    fn iter(&self) -> (r: Vec<&Var>) {
        let mut refs: Vec<&Var> = Vec::new();
        let mut i: usize = 0;
        while i < self.variables.len()
            invariant
                i <= self.variables@.len(),
                refs@.len() == i,
                forall|k: int| 0 <= k < i ==> *(#[trigger] refs@[k]) == *self.variables@[k],
            decreases self.variables@.len() - i,
        {
            refs.push(&*self.variables[i]);
            i += 1;
        }
        refs
    }

    fn len(&self) -> (r: usize) {
        self.variables.len()
    }
}

} // verus!
