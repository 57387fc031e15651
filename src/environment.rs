//! The binding environment and the builtin functions.
use vstd::prelude::*;
use vstd::string::StringExecFns;

verus! {

/// What an identifier stands for.
#[derive(Clone, Copy, Debug, PartialEq, Eq, Structural)]
pub enum IdentTy {
    Var,
    Func,
    Const,
}

/// The builtin functions of the language.
#[derive(Clone, Copy, Debug, PartialEq, Eq, Structural)]
pub enum Builtin {
    Sin,
    Cos,
    Tan,
    Sqrt,
    /// Base-2 exponential.
    Exp,
    Ln,
}

/// The builtin that a name denotes, if any (names are case-sensitive).
pub open spec fn builtin_named(name: Seq<char>) -> Option<Builtin> {
    if name == "Sin"@ {
        Some(Builtin::Sin)
    } else if name == "Cos"@ {
        Some(Builtin::Cos)
    } else if name == "Tan"@ {
        Some(Builtin::Tan)
    } else if name == "Sqrt"@ {
        Some(Builtin::Sqrt)
    } else if name == "Exp"@ {
        Some(Builtin::Exp)
    } else if name == "Ln"@ {
        Some(Builtin::Ln)
    } else {
        None
    }
}

impl Builtin {
    /// Resolves a callee name to a builtin.
    pub fn from_name(name: &String) -> (r: Option<Builtin>)
        ensures
            r == builtin_named(name@),
    {
        if *name == String::from_str("Sin") {
            Some(Builtin::Sin)
        } else if *name == String::from_str("Cos") {
            Some(Builtin::Cos)
        } else if *name == String::from_str("Tan") {
            Some(Builtin::Tan)
        } else if *name == String::from_str("Sqrt") {
            Some(Builtin::Sqrt)
        } else if *name == String::from_str("Exp") {
            Some(Builtin::Exp)
        } else if *name == String::from_str("Ln") {
            Some(Builtin::Ln)
        } else {
            None
        }
    }
}

/// The binding of `name` in a list of bindings: the first entry with that name.
pub open spec fn binding_in(bindings: Seq<(String, IdentTy)>, name: Seq<char>) -> Option<IdentTy>
    decreases bindings.len(),
{
    if bindings.len() == 0 {
        None
    } else if bindings[0].0@ == name {
        Some(bindings[0].1)
    } else {
        binding_in(bindings.drop_first(), name)
    }
}

/// The bindings of the default environment.
pub open spec fn default_binding(name: Seq<char>) -> Option<IdentTy> {
    if name == "T"@ {
        Some(IdentTy::Var)
    } else if name == "Sin"@ || name == "Cos"@ || name == "Tan"@ || name == "Sqrt"@
        || name == "Exp"@ || name == "Ln"@ {
        Some(IdentTy::Func)
    } else if name == "PI"@ {
        Some(IdentTy::Const)
    } else {
        None
    }
}

/// The table that classifies every identifier as variable, function or constant.
pub struct Environment {
    pub lookup: Vec<(String, IdentTy)>,
}

impl Environment {
    /// What `name` is bound to.
    pub open spec fn binding(&self, name: Seq<char>) -> Option<IdentTy> {
        binding_in(self.lookup@, name)
    }

    /// Looks a name up.
    pub fn get(&self, name: &String) -> (r: Option<IdentTy>)
        ensures
            r == self.binding(name@),
    {
        let mut i: usize = 0;
        assert(self.lookup@.skip(0) =~= self.lookup@);
        while i < self.lookup.len()
            invariant
                i <= self.lookup@.len(),
                self.binding(name@) == binding_in(self.lookup@.skip(i as int), name@),
            decreases self.lookup@.len() - i,
        {
            let rest = Ghost(self.lookup@.skip(i as int));
            if self.lookup[i].0 == *name {
                return Some(self.lookup[i].1);
            }
            assert(rest@.drop_first() =~= self.lookup@.skip(i + 1));
            i += 1;
        }
        None
    }
}

impl Default for Environment {
    /// `T` is the variable, `PI` the constant, and `Sin`, `Cos`, `Tan`, `Sqrt`,
    /// `Exp`, `Ln` the functions; every builtin is bound, `Tan` included.
    fn default() -> (r: Environment)
        ensures
            forall|name: Seq<char>| #[trigger] r.binding(name) == default_binding(name),
    {
        let lookup = vec![
            (String::from_str("T"), IdentTy::Var),
            (String::from_str("Sin"), IdentTy::Func),
            (String::from_str("Cos"), IdentTy::Func),
            (String::from_str("Tan"), IdentTy::Func),
            (String::from_str("Sqrt"), IdentTy::Func),
            (String::from_str("Exp"), IdentTy::Func),
            (String::from_str("Ln"), IdentTy::Func),
            (String::from_str("PI"), IdentTy::Const),
        ];
        let r = Environment { lookup };
        assert forall|name: Seq<char>| #[trigger] r.binding(name) == default_binding(name) by {
            reveal_with_fuel(binding_in, 9);
            let s = r.lookup@;
            assert(s.drop_first().drop_first().drop_first().drop_first().drop_first().drop_first().drop_first().drop_first().len() == 0);
        }
        r
    }
}

} // verus!
