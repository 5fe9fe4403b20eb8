//! Transform kinds and entry-point probing.
//!
//! A guest module is classified at instantiation time by probing its
//! exported entry-point names: exactly one of the six recognized names
//! must be present, otherwise the module is invalid.

use vstd::prelude::*;
use vstd::string::StringExecFns;
use crate::errors::EngineError;

verus! {

/// The closed set of transform kinds a stage can have.
#[derive(Clone, Copy, Debug, PartialEq, Eq, Structural)]
pub enum TransformKind {
    /// One input record, exactly one output record.
    RecordMap,
    /// One input record passes unchanged or is dropped.
    Filter,
    /// One input record, one output record or dropped.
    FilterMap,
    /// One input record expands to zero or more output records.
    ArrayMap,
    /// Stateful: each input is folded into a private accumulator.
    Aggregate,
    /// Like `Map`, with read access to an auxiliary batch.
    Join,
}

impl TransformKind {
    /// The entry-point name that marks this kind.
    pub open spec fn spec_name(self) -> Seq<char> {
        match self {
            TransformKind::RecordMap => "map"@,
            TransformKind::Filter => "filter"@,
            TransformKind::FilterMap => "filter_map"@,
            TransformKind::ArrayMap => "array_map"@,
            TransformKind::Aggregate => "aggregate"@,
            TransformKind::Join => "join"@,
        }
    }

    /// The entry-point name that marks this kind.
    pub fn name(&self) -> (r: String)
        ensures
            r@ == self.spec_name(),
    {
        match self {
            TransformKind::RecordMap => String::from_str("map"),
            TransformKind::Filter => String::from_str("filter"),
            TransformKind::FilterMap => String::from_str("filter_map"),
            TransformKind::ArrayMap => String::from_str("array_map"),
            TransformKind::Aggregate => String::from_str("aggregate"),
            TransformKind::Join => String::from_str("join"),
        }
    }
}

/// The kind an exported name stands for, if it is recognized.
pub open spec fn recognized(name: Seq<char>) -> Option<TransformKind> {
    if name == "map"@ {
        Option::Some(TransformKind::RecordMap)
    } else if name == "filter"@ {
        Option::Some(TransformKind::Filter)
    } else if name == "filter_map"@ {
        Option::Some(TransformKind::FilterMap)
    } else if name == "array_map"@ {
        Option::Some(TransformKind::ArrayMap)
    } else if name == "aggregate"@ {
        Option::Some(TransformKind::Aggregate)
    } else if name == "join"@ {
        Option::Some(TransformKind::Join)
    } else {
        Option::None
    }
}

/// How many of the names are recognized entry points.
pub open spec fn recognized_count(names: Seq<Seq<char>>) -> int
    decreases names.len(),
{
    if names.len() == 0 {
        0
    } else {
        recognized_count(names.drop_last()) + (if recognized(names.last()) is Some {
            1int
        } else {
            0int
        })
    }
}

/// The kind of the first recognized name, if any.
pub open spec fn first_recognized(names: Seq<Seq<char>>) -> Option<TransformKind>
    decreases names.len(),
{
    if names.len() == 0 {
        Option::None
    } else if first_recognized(names.drop_last()) is Some {
        first_recognized(names.drop_last())
    } else {
        recognized(names.last())
    }
}

/// What probing a module's export list yields: the unique recognized
/// kind, checked against the configured hint; anything else is an
/// invalid module.
pub open spec fn select_spec(names: Seq<Seq<char>>, hint: Option<TransformKind>) -> Result<
    TransformKind,
    EngineError,
> {
    if recognized_count(names) != 1 {
        Result::Err(EngineError::InvalidModule)
    } else {
        match (first_recognized(names), hint) {
            (Option::Some(k), Option::Some(h)) => if k == h {
                Result::Ok(k)
            } else {
                Result::Err(EngineError::InvalidModule)
            },
            (Option::Some(k), Option::None) => Result::Ok(k),
            (Option::None, _) => Result::Err(EngineError::InvalidModule),
        }
    }
}

/// The views of a list of export names.
pub open spec fn names_of(s: Seq<String>) -> Seq<Seq<char>> {
    s.map_values(|n: String| n@)
}

/// Classifies one export name.
pub fn recognize_export(name: &String) -> (r: Option<TransformKind>)
    ensures
        r == recognized(name@),
{
    if *name == String::from_str("map") {
        Option::Some(TransformKind::RecordMap)
    } else if *name == String::from_str("filter") {
        Option::Some(TransformKind::Filter)
    } else if *name == String::from_str("filter_map") {
        Option::Some(TransformKind::FilterMap)
    } else if *name == String::from_str("array_map") {
        Option::Some(TransformKind::ArrayMap)
    } else if *name == String::from_str("aggregate") {
        Option::Some(TransformKind::Aggregate)
    } else if *name == String::from_str("join") {
        Option::Some(TransformKind::Join)
    } else {
        Option::None
    }
}

proof fn lemma_probe_extend(names: Seq<Seq<char>>, i: int)
    requires
        0 <= i < names.len(),
    ensures
        recognized_count(names.take(i + 1)) == recognized_count(names.take(i)) + (
        if recognized(names[i]) is Some {
            1int
        } else {
            0int
        }),
        first_recognized(names.take(i + 1)) == (if first_recognized(names.take(i)) is Some {
            first_recognized(names.take(i))
        } else {
            recognized(names[i])
        }),
{
    assert(names.take(i + 1).drop_last() =~= names.take(i));
    assert(names.take(i + 1).last() == names[i]);
}

/// Probes an export list: returns the unique recognized transform kind,
/// or `InvalidModule` when zero or several names are recognized or the
/// recognized kind contradicts the hint.
pub fn select_transform(exports: &Vec<String>, hint: Option<TransformKind>) -> (r: Result<
    TransformKind,
    EngineError,
>)
    ensures
        r == select_spec(names_of(exports@), hint),
{
    let ghost names = names_of(exports@);
    let mut found: Option<TransformKind> = Option::None;
    let mut count: usize = 0;
    let mut i: usize = 0;
    proof {
        assert(names.take(0) =~= Seq::<Seq<char>>::empty());
    }
    while i < exports.len()
        invariant
            0 <= i <= exports.len(),
            names == names_of(exports@),
            names.len() == exports@.len(),
            count <= i,
            count as int == recognized_count(names.take(i as int)),
            found == first_recognized(names.take(i as int)),
        decreases exports.len() - i,
    {
        proof {
            lemma_probe_extend(names, i as int);
            assert(names[i as int] == exports@[i as int]@);
        }
        let k = recognize_export(&exports[i]);
        if k.is_some() {
            count = count + 1;
            if found.is_none() {
                found = k;
            }
        }
        i = i + 1;
    }
    proof {
        assert(names.take(exports@.len() as int) =~= names);
    }
    if count != 1 {
        Result::Err(EngineError::InvalidModule)
    } else {
        match (found, hint) {
            (Option::Some(k), Option::Some(h)) => {
                if k == h {
                    Result::Ok(k)
                } else {
                    Result::Err(EngineError::InvalidModule)
                }
            },
            (Option::Some(k), Option::None) => Result::Ok(k),
            (Option::None, _) => Result::Err(EngineError::InvalidModule),
        }
    }
}

} // verus!
