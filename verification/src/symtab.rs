//! Symbol tables: the mapping of one scope from names to variables, and the
//! whole-program table of functions.
//!
//! Both are association lists in which a later entry for a name replaces an
//! earlier one; their views are the mappings that result.

use vstd::prelude::*;
use crate::ast::Ty;

verus! {

/// What a name stands for once it is resolved: the id of its storage and
/// its type.
#[derive(Debug, Clone, Copy, PartialEq, Eq, Structural)]
pub struct VarInfo {
    pub id: u32,
    pub ty: Ty,
}

/// One entry of a [`SymbolMap`].
#[derive(Debug)]
pub struct Symbol {
    pub name: String,
    pub info: VarInfo,
}

/// The mapping that a list of symbols denotes.
pub open spec fn bindings(entries: Seq<Symbol>) -> Map<Seq<char>, VarInfo>
    decreases entries.len(),
{
    if entries.len() == 0 {
        Map::empty()
    } else {
        bindings(entries.drop_last()).insert(entries.last().name@, entries.last().info)
    }
}

/// The variables of one scope, or the global variables of a program.
#[derive(Debug)]
pub struct SymbolMap {
    pub entries: Vec<Symbol>,
}

impl View for SymbolMap {
    type V = Map<Seq<char>, VarInfo>;

    open spec fn view(&self) -> Map<Seq<char>, VarInfo> {
        bindings(self.entries@)
    }
}

impl SymbolMap {
    /// An empty mapping.
    pub fn new() -> (m: SymbolMap)
        ensures
            m@ == Map::<Seq<char>, VarInfo>::empty(),
    {
        SymbolMap { entries: Vec::new() }
    }

    /// Looks a name up.
    pub fn get(&self, name: &String) -> (r: Option<VarInfo>)
        ensures
            r == if self@.contains_key(name@) {
                Some(self@[name@])
            } else {
                None::<VarInfo>
            },
    {
        let mut i: usize = self.entries.len();
        assert(self.entries@.take(i as int) =~= self.entries@);
        while i > 0
            invariant
                i <= self.entries.len(),
                self@.contains_key(name@) == bindings(self.entries@.take(i as int)).contains_key(
                    name@,
                ),
                self@.contains_key(name@) ==> self@[name@] == bindings(
                    self.entries@.take(i as int),
                )[name@],
            decreases i,
        {
            i -= 1;
            assert(self.entries@.take(i + 1).drop_last() =~= self.entries@.take(i as int));
            if self.entries[i].name == *name {
                return Some(self.entries[i].info);
            }
        }
        None
    }

    /// Tests whether a name is bound.
    pub fn contains_key(&self, name: &String) -> (b: bool)
        ensures
            b == self@.contains_key(name@),
    {
        self.get(name).is_some()
    }

    /// Binds a name, replacing an earlier binding of it. Returns the
    /// earlier binding, if there was one.
    pub fn insert(&mut self, name: String, info: VarInfo) -> (prev: Option<VarInfo>)
        ensures
            final(self)@ == old(self)@.insert(name@, info),
            prev == if old(self)@.contains_key(name@) {
                Some(old(self)@[name@])
            } else {
                None::<VarInfo>
            },
    {
        let prev = self.get(&name);
        let ghost before = self.entries@;
        self.entries.push(Symbol { name, info });
        assert(self.entries@.drop_last() =~= before);
        prev
    }
}

/// The signature of a function as the function table records it.
#[derive(Debug)]
pub struct FuncSig {
    /// Index of the function in the program's function list.
    pub slot: u32,
    pub ret: Ty,
    /// The types of the parameters, in order.
    pub params: Vec<Ty>,
    /// Whether a definition, and not only prototypes, has been seen.
    pub defined: bool,
}

/// The mathematical content of a [`FuncSig`].
pub struct FuncSigView {
    pub slot: u32,
    pub ret: Ty,
    pub params: Seq<Ty>,
    pub defined: bool,
}

impl View for FuncSig {
    type V = FuncSigView;

    open spec fn view(&self) -> FuncSigView {
        FuncSigView { slot: self.slot, ret: self.ret, params: self.params@, defined: self.defined }
    }
}

/// One entry of a [`FuncMap`].
#[derive(Debug)]
pub struct FuncSymbol {
    pub name: String,
    pub sig: FuncSig,
}

/// The mapping that a list of function symbols denotes.
pub open spec fn signatures(entries: Seq<FuncSymbol>) -> Map<Seq<char>, FuncSigView>
    decreases entries.len(),
{
    if entries.len() == 0 {
        Map::empty()
    } else {
        signatures(entries.drop_last()).insert(entries.last().name@, entries.last().sig@)
    }
}

/// The functions of a program by name.
#[derive(Debug)]
pub struct FuncMap {
    pub entries: Vec<FuncSymbol>,
}

impl View for FuncMap {
    type V = Map<Seq<char>, FuncSigView>;

    open spec fn view(&self) -> Map<Seq<char>, FuncSigView> {
        signatures(self.entries@)
    }
}

impl FuncMap {
    /// An empty table.
    pub fn new() -> (m: FuncMap)
        ensures
            m@ == Map::<Seq<char>, FuncSigView>::empty(),
    {
        FuncMap { entries: Vec::new() }
    }

    /// Looks a function up.
    pub fn get(&self, name: &String) -> (r: Option<&FuncSig>)
        ensures
            r is Some == self@.contains_key(name@),
            r matches Some(sig) ==> sig@ == self@[name@],
    {
        let mut i: usize = self.entries.len();
        assert(self.entries@.take(i as int) =~= self.entries@);
        while i > 0
            invariant
                i <= self.entries.len(),
                self@.contains_key(name@) == signatures(self.entries@.take(i as int)).contains_key(
                    name@,
                ),
                self@.contains_key(name@) ==> self@[name@] == signatures(
                    self.entries@.take(i as int),
                )[name@],
            decreases i,
        {
            i -= 1;
            assert(self.entries@.take(i + 1).drop_last() =~= self.entries@.take(i as int));
            if self.entries[i].name == *name {
                return Some(&self.entries[i].sig);
            }
        }
        None
    }

    /// Records a signature under a name, replacing an earlier record.
    pub fn insert(&mut self, name: String, sig: FuncSig)
        ensures
            final(self)@ == old(self)@.insert(name@, sig@),
    {
        let ghost before = self.entries@;
        self.entries.push(FuncSymbol { name, sig });
        assert(self.entries@.drop_last() =~= before);
    }
}

} // verus!
