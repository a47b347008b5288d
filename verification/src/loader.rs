//! The runtime symbol table of the dynamic strategy.
//!
//! The consumer fills the table exactly once, before first use, with
//! the address the platform's dynamic loader reported for each
//! resolved symbol name (zero when the loader had none); afterwards
//! the table is read-only. A lookup never resolves to a null address
//! silently: a symbol that is absent, or was recorded with address
//! zero, is reported as `SymbolUnavailable`, which callers may probe
//! to degrade gracefully.

use vstd::prelude::*;
use crate::error::Error;
use crate::order::str_eq;

verus! {

/// The address recorded for the first entry bearing the name.
pub open spec fn spec_lookup(es: Seq<(Seq<char>, u64)>, n: Seq<char>) -> Option<u64>
    decreases es.len(),
{
    if es.len() == 0 {
        Option::None
    } else if es[0].0 == n {
        Some(es[0].1)
    } else {
        spec_lookup(es.drop_first(), n)
    }
}

/// A process-wide table of symbol addresses, written once and read
/// thereafter.
pub struct SymbolTable {
    entries: Vec<(String, u64)>,
}

impl View for SymbolTable {
    type V = Seq<(Seq<char>, u64)>;

    closed spec fn view(&self) -> Seq<(Seq<char>, u64)> {
        self.entries.deep_view()
    }
}

impl SymbolTable {
    /// An empty table.
    pub fn new() -> (r: SymbolTable)
        ensures
            r@ == Seq::<(Seq<char>, u64)>::empty(),
    {
        let t = SymbolTable { entries: Vec::new() };
        proof {
            assert(t@ =~= Seq::<(Seq<char>, u64)>::empty());
        }
        t
    }

    /// Records what the dynamic loader reported for one symbol name:
    /// its address, or zero when the loader had none.
    pub fn record(&mut self, name: String, addr: u64)
        ensures
            final(self)@ == old(self)@.push((name@, addr)),
    {
        let ghost pre = self.entries;
        let ghost gname = name;
        self.entries.push((name, addr));
        proof {
            assert forall|k: int| 0 <= k < self.entries.deep_view().len() implies self
                .entries.deep_view()[k] == pre.deep_view().push((gname@, addr))[k] by {
                assert(self.entries@ == pre@.push((gname, addr)));
                if k < pre@.len() {
                    assert(self.entries@[k] == pre@[k]);
                } else {
                    assert(self.entries@[k] == (gname, addr));
                }
            }
            assert(self.entries.deep_view() =~= pre.deep_view().push((gname@, addr)));
        }
    }

    /// Number of entries recorded.
    pub fn len(&self) -> (r: usize)
        ensures
            r == self@.len(),
    {
        self.entries.len()
    }

    /// The usable address recorded for a symbol name. Fails with
    /// `SymbolUnavailable` carrying the name when the table has no
    /// entry for it or the recorded address is zero: a resolved
    /// symbol the running system lacks is recoverable, never a null
    /// call.
    pub fn lookup(&self, name: &str) -> (r: Result<u64, Error>)
        ensures
            match r {
                Ok(a) => spec_lookup(self@, name@) == Some(a) && a != 0,
                Err(e) => {
                    &&& (spec_lookup(self@, name@) is None || spec_lookup(self@, name@) == Some(
                        0u64,
                    ))
                    &&& e.deep_view() == crate::error::SpecError::SymbolUnavailable(name@)
                },
            },
    {
        let ghost dv = self@;
        let mut i: usize = 0;
        proof {
            assert(dv.skip(0) =~= dv);
        }
        while i < self.entries.len()
            invariant
                dv == self@,
                dv == self.entries.deep_view(),
                dv.len() == self.entries.len(),
                i <= self.entries.len(),
                spec_lookup(dv, name@) == spec_lookup(dv.skip(i as int), name@),
            decreases self.entries.len() - i,
        {
            proof {
                assert(dv.skip(i as int)[0] == dv[i as int]);
                assert(dv.skip(i as int).drop_first() =~= dv.skip(i as int + 1));
            }
            if str_eq(self.entries[i].0.as_str(), name) {
                let addr = self.entries[i].1;
                assert(spec_lookup(dv, name@) == Some(addr));
                if addr == 0 {
                    return Err(Error::SymbolUnavailable(String::from_str(name)));
                }
                return Ok(addr);
            }
            i = i + 1;
        }
        proof {
            assert(dv.skip(self.entries.len() as int).len() == 0);
        }
        Err(Error::SymbolUnavailable(String::from_str(name)))
    }
}

} // verus!
