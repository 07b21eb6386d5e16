//! The symbol table built by the assembler's scan phase: a mapping from
//! label name (sigil included) to instruction address, fully populated
//! before any instruction is encoded. Its view is the mathematical map the
//! contracts speak of; a later insertion of the same name overwrites the
//! earlier one.

use vstd::prelude::*;

verus! {

/// A label definition: the address the label stands for, and its name
/// (beginning with the `@` sigil).
#[derive(Debug)]
pub struct LabelDescriptor {
    pub address: u32,
    pub name: String,
}

/// The map an ordered run of label definitions denotes: later definitions
/// of a name win.
pub open spec fn spec_label_map(entries: Seq<LabelDescriptor>) -> Map<Seq<char>, u32>
    decreases entries.len(),
{
    if entries.len() == 0 {
        Map::empty()
    } else {
        spec_label_map(entries.drop_last()).insert(entries.last().name@, entries.last().address)
    }
}

/// Label name to address.
#[derive(Debug)]
pub struct SymbolTable {
    entries: Vec<LabelDescriptor>,
}

impl View for SymbolTable {
    type V = Map<Seq<char>, u32>;

    closed spec fn view(&self) -> Map<Seq<char>, u32> {
        spec_label_map(self.entries@)
    }
}

impl SymbolTable {
    /// The empty table.
    pub fn new() -> (r: SymbolTable)
        ensures
            r@ == Map::<Seq<char>, u32>::empty(),
    {
        SymbolTable { entries: Vec::new() }
    }

    /// Defines `name` at `address`, overwriting any earlier definition.
    pub fn insert(&mut self, name: String, address: u32)
        ensures
            final(self)@ == old(self)@.insert(name@, address),
    {
        self.entries.push(LabelDescriptor { address, name });
        proof {
            assert(self.entries@.drop_last() =~= old(self).entries@);
        }
    }

    /// Looks a label name up.
    pub fn get(&self, name: &str) -> (r: Option<u32>)
        ensures
            match r {
                Some(a) => self@.contains_key(name@) && self@[name@] == a,
                None => !self@.contains_key(name@),
            },
    {
        let n = self.entries.len();
        let mut i: usize = n;
        proof {
            assert(self.entries@.take(n as int) =~= self.entries@);
        }
        while i > 0
            invariant
                0 <= i <= n,
                n == self.entries.len(),
                self@.contains_key(name@) == spec_label_map(
                    self.entries@.take(i as int),
                ).contains_key(name@),
                self@.contains_key(name@) ==> self@[name@] == spec_label_map(
                    self.entries@.take(i as int),
                )[name@],
            decreases i,
        {
            proof {
                assert(self.entries@.take(i as int).drop_last() =~= self.entries@.take(i - 1));
                assert(self.entries@.take(i as int).last() == self.entries@[i - 1]);
            }
            let e = &self.entries[i - 1];
            if crate::text::str_eq(e.name.as_str(), name) {
                return Some(e.address);
            }
            i -= 1;
        }
        proof {
            assert(self.entries@.take(0) =~= Seq::<LabelDescriptor>::empty());
        }
        None
    }
}

} // verus!
