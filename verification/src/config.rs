//! Per-stage configuration.
//!
//! A stage configuration is immutable once added to a builder: named
//! string parameters, an optional transform-kind hint checked against
//! the probed kind at initialization, and an optional auxiliary stream
//! binding for join stages.

use vstd::prelude::*;
use crate::transform::TransformKind;

verus! {

/// Configuration of one transform stage.
pub struct SmartModuleConfig {
    pub params: Vec<(String, String)>,
    pub kind_hint: Option<TransformKind>,
    pub join_stream: Option<String>,
}

/// The value bound to the first parameter with the given name, if any.
pub open spec fn lookup_spec(params: Seq<(String, String)>, name: Seq<char>) -> Option<Seq<char>>
    decreases params.len(),
{
    if params.len() == 0 {
        Option::None
    } else if params[0].0@ == name {
        Option::Some(params[0].1@)
    } else {
        lookup_spec(params.drop_first(), name)
    }
}

impl SmartModuleConfig {
    /// An empty configuration: no parameters, no hint, no join binding.
    pub fn new() -> (r: SmartModuleConfig)
        ensures
            r.params@.len() == 0,
            r.kind_hint is None,
            r.join_stream is None,
    {
        SmartModuleConfig { params: Vec::new(), kind_hint: Option::None, join_stream: Option::None }
    }

    /// Appends a named parameter.
    pub fn set_param(&mut self, name: String, value: String)
        ensures
            final(self).params@ == old(self).params@.push((name, value)),
            final(self).kind_hint == old(self).kind_hint,
            final(self).join_stream == old(self).join_stream,
    {
        self.params.push((name, value));
    }

    /// The value of the first parameter with the given name, if any.
    pub fn lookup_param(&self, name: &String) -> (r: Option<&String>)
        ensures
            match r {
                Option::Some(v) => lookup_spec(self.params@, name@) == Option::Some(v@),
                Option::None => lookup_spec(self.params@, name@) is None,
            },
    {
        proof {
            assert(self.params@.skip(0) =~= self.params@);
        }
        lookup_from(&self.params, name, 0)
    }
}

fn lookup_from<'a>(params: &'a Vec<(String, String)>, name: &String, i: usize) -> (r: Option<
    &'a String,
>)
    requires
        i <= params@.len(),
    ensures
        match r {
            Option::Some(v) => lookup_spec(params@.skip(i as int), name@) == Option::Some(v@),
            Option::None => lookup_spec(params@.skip(i as int), name@) is None,
        },
    decreases params@.len() - i,
{
    if i == params.len() {
        proof {
            assert(params@.skip(i as int) =~= Seq::<(String, String)>::empty());
        }
        Option::None
    } else {
        proof {
            assert(params@.skip(i as int).drop_first() =~= params@.skip(i as int + 1));
            assert(params@.skip(i as int)[0] == params@[i as int]);
        }
        if params[i].0 == *name {
            Option::Some(&params[i].1)
        } else {
            lookup_from(params, name, i + 1)
        }
    }
}

} // verus!
