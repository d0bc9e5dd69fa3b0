use vstd::prelude::*;

use super::name_generator::{gen_next, make_temp_var_name_generator, make_var_name_generator, GenView, NameGenerator};

verus! {

/// Makes the names of variables (`var.{name}.{n}`, counted per name) and of temporaries
/// (`tmp.{n}`).
pub struct NameCreator {
    vars: NameGenerator,
    tmps: NameGenerator,
}

impl NameCreator {
    /// The generator of variable names.
    pub closed spec fn vars(&self) -> GenView {
        self.vars@
    }

    /// The generator of temporary names.
    pub closed spec fn tmps(&self) -> GenView {
        self.tmps@
    }

    pub fn new() -> (c: Self)
        ensures
            c.vars() == super::name_generator::fresh_gen(super::name_generator::NameFormat::Var),
            c.tmps() == super::name_generator::fresh_gen(super::name_generator::NameFormat::Temp),
    {
        NameCreator { vars: make_var_name_generator(), tmps: make_temp_var_name_generator() }
    }

    /// A fresh name for a variable called `name`.
    pub fn make_var_name(&mut self, name: &str) -> (r: String)
        ensures
            r@ == gen_next(old(self).vars(), name@).1,
            final(self).vars() == gen_next(old(self).vars(), name@).0,
            final(self).tmps() == old(self).tmps(),
    {
        self.vars.make_unique_name(name)
    }

    /// A fresh name for a temporary.
    pub fn make_temp_var_name(&mut self) -> (r: String)
        ensures
            r@ == gen_next(old(self).tmps(), Seq::empty()).1,
            final(self).tmps() == gen_next(old(self).tmps(), Seq::empty()).0,
            final(self).vars() == old(self).vars(),
    {
        let r = self.tmps.make_unique_name("");
        proof {
            reveal_strlit("");
        }
        assert(""@ =~= Seq::<char>::empty());
        r
    }
}

} // verus!
