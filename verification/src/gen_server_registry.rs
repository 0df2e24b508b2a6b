//! A registry of servers by address: each address holds at most one
//! server, named by its pid. The table is a `DashMap` from addresses to
//! pid ids, so that it can be shared between threads.
use vstd::prelude::*;
use dashmap::DashMap;
use crate::pid::Pid;

verus! {

#[verifier::external_type_specification]
#[verifier::external_body]
#[verifier::reject_recursive_types(K)]
#[verifier::reject_recursive_types(V)]
#[verifier::reject_recursive_types(S)]
pub struct ExDashMap<K, V, S>(DashMap<K, V, S>);

/// What an address table holds: each address with the pid id stored at it.
pub uninterp spec fn address_table(table: DashMap<String, u64>) -> Map<Seq<char>, u64>;

/// `DashMap::new`: a table that holds nothing.
#[verifier::external_body]
fn table_new() -> (fresh: DashMap<String, u64>)
    ensures
        address_table(fresh).dom() == Set::<Seq<char>>::empty(),
{
    DashMap::new()
}

/// `DashMap::contains_key`: whether `address` is a key of the table.
#[verifier::external_body]
fn table_contains(table: &DashMap<String, u64>, address: &str) -> (r: bool)
    ensures
        r == address_table(*table).dom().contains(address@),
{
    table.contains_key(address)
}

/// `DashMap::insert`: afterwards `address` maps to `id`, every other key
/// is unchanged; the value it replaced comes back.
#[verifier::external_body]
fn table_insert(table: &mut DashMap<String, u64>, address: String, id: u64) -> (r: Option<u64>)
    ensures
        address_table(*final(table)) == address_table(*old(table)).insert(address@, id),
        r == (if address_table(*old(table)).dom().contains(address@) {
            Some(address_table(*old(table))[address@])
        } else {
            None::<u64>
        }),
{
    table.insert(address, id)
}

/// `DashMap::get`: the value at `address`, copied out of the guard.
#[verifier::external_body]
fn table_get(table: &DashMap<String, u64>, address: &str) -> (r: Option<u64>)
    ensures
        r == (if address_table(*table).dom().contains(address@) {
            Some(address_table(*table)[address@])
        } else {
            None::<u64>
        }),
{
    table.get(address).map(|entry| *entry.value())
}

/// `DashMap::iter`, collected: every entry once, in the order of the
/// table's shards and buckets, which this contract leaves open.
#[verifier::external_body]
fn table_entries(table: &DashMap<String, u64>) -> (r: Vec<(String, u64)>)
    ensures
        forall|i: int| 0 <= i < r@.len() ==> address_table(*table).dom().contains(#[trigger] r@[i].0@)
            && address_table(*table)[r@[i].0@] == r@[i].1,
        forall|i: int, j: int| 0 <= i < j < r@.len() ==> (#[trigger] r@[i]).0@ != (#[trigger] r@[j]).0@,
        forall|a: Seq<char>| #[trigger] address_table(*table).dom().contains(a)
            ==> exists|i: int| 0 <= i < r@.len() && (#[trigger] r@[i]).0@ == a,
{
    table.iter().map(|entry| (entry.key().clone(), *entry.value())).collect()
}

/// Errors of the server registry.
#[derive(Debug, Clone, Copy, PartialEq, Eq, Structural)]
pub enum GenServerRegistryError {
    /// The address already holds a server.
    AddressAlreadyTaken,
    /// The address holds no server.
    ServerNotFound,
}

impl GenServerRegistryError {
    pub open spec fn spec_text(&self) -> Seq<char> {
        match self {
            GenServerRegistryError::AddressAlreadyTaken => "A GenServer is already Registered at this Address"@,
            GenServerRegistryError::ServerNotFound => "There is no GenServer associated with this Address"@,
        }
    }

    /// The error message.
    pub fn to_string(&self) -> (s: String)
        ensures
            s@ == self.spec_text(),
    {
        match self {
            GenServerRegistryError::AddressAlreadyTaken => "A GenServer is already Registered at this Address".to_owned(),
            GenServerRegistryError::ServerNotFound => "There is no GenServer associated with this Address".to_owned(),
        }
    }
}

/// `ids` lists the values of `m`, one per key: there is an order of the
/// keys of `m` in which their values are `ids`.
pub open spec fn lists_each_value(ids: Seq<u64>, m: Map<Seq<char>, u64>) -> bool {
    exists|keys: Seq<Seq<char>>| {
        &&& keys.len() == ids.len()
        &&& keys.no_duplicates()
        &&& forall|i: int| 0 <= i < keys.len() ==> m.dom().contains(#[trigger] keys[i]) && m[keys[i]] == ids[i]
        &&& forall|a: Seq<char>| #[trigger] m.dom().contains(a) ==> keys.contains(a)
    }
}

/// Servers stored and retrieved by address, each named by its pid.
pub struct GenServerRegistry {
    table: DashMap<String, u64>,
}

impl GenServerRegistry {
    /// Each address with the id of the pid of the server it holds.
    pub closed spec fn view(&self) -> Map<Seq<char>, u64> {
        address_table(self.table)
    }

    /// `address` holds a server.
    pub open spec fn holds(&self, address: Seq<char>) -> bool {
        self.view().dom().contains(address)
    }

    /// An empty registry.
    pub fn new() -> (r: GenServerRegistry)
        ensures
            r.view() == Map::<Seq<char>, u64>::empty(),
    {
        let r = GenServerRegistry { table: table_new() };
        assert(r.view() =~= Map::<Seq<char>, u64>::empty());
        r
    }

    /// Add the server `pid` under `address`; fails with
    /// `AddressAlreadyTaken` when the address holds a server already.
    pub fn add_entry(&mut self, address: &str, pid: Pid) -> (r: Result<(), GenServerRegistryError>)
        ensures
            old(self).holds(address@) ==> r == Err::<(), GenServerRegistryError>(GenServerRegistryError::AddressAlreadyTaken)
                && final(self).view() == old(self).view(),
            !old(self).holds(address@) ==> r is Ok && final(self).view() == old(self).view().insert(address@, pid.id),
    {
        if table_contains(&self.table, address) {
            return Err(GenServerRegistryError::AddressAlreadyTaken);
        }
        let _ = table_insert(&mut self.table, address.to_owned(), pid.id);
        Ok(())
    }

    /// The server at `address`; `ServerNotFound` when there is none.
    pub fn get_entry(&self, address: &str) -> (r: Result<Pid, GenServerRegistryError>)
        ensures
            self.holds(address@) ==> r == Ok::<Pid, GenServerRegistryError>(Pid { id: self.view()[address@] }),
            !self.holds(address@) ==> r == Err::<Pid, GenServerRegistryError>(GenServerRegistryError::ServerNotFound),
    {
        match table_get(&self.table, address) {
            Some(id) => Ok(Pid { id }),
            None => Err(GenServerRegistryError::ServerNotFound),
        }
    }

    /// Put the server `pid` at `address` in place of the one there;
    /// `ServerNotFound` when the address holds none.
    pub fn update_entry(&mut self, address: &str, pid: Pid) -> (r: Result<(), GenServerRegistryError>)
        ensures
            old(self).holds(address@) ==> r is Ok && final(self).view() == old(self).view().insert(address@, pid.id),
            !old(self).holds(address@) ==> r == Err::<(), GenServerRegistryError>(GenServerRegistryError::ServerNotFound)
                && final(self).view() == old(self).view(),
    {
        if !table_contains(&self.table, address) {
            return Err(GenServerRegistryError::ServerNotFound);
        }
        let _ = table_insert(&mut self.table, address.to_owned(), pid.id);
        Ok(())
    }

    /// The servers of all addresses, one per address, in no stated order.
    pub fn all_entries(&self) -> (r: Vec<Pid>)
        ensures
            lists_each_value(r@.map_values(|p: Pid| p.id), self.view()),
    {
        let entries = table_entries(&self.table);
        let ghost m = self.view();
        let mut out: Vec<Pid> = Vec::new();
        let mut i: usize = 0;
        while i < entries.len()
            invariant
                i <= entries@.len(),
                out@.len() == i,
                forall|k: int| 0 <= k < i ==> (#[trigger] out@[k]).id == entries@[k].1,
            decreases entries@.len() - i,
        {
            out.push(Pid { id: entries[i].1 });
            i += 1;
        }
        proof {
            let ids = out@.map_values(|p: Pid| p.id);
            let keys = entries@.map_values(|e: (String, u64)| e.0@);
            assert(keys.len() == ids.len());
            assert forall|a: int, b: int| 0 <= a < b < keys.len() implies keys[a] != keys[b] by {
                assert(entries@[a].0@ != entries@[b].0@);
            }
            assert(keys.no_duplicates());
            assert forall|k: int| 0 <= k < keys.len() implies m.dom().contains(#[trigger] keys[k]) && m[keys[k]] == ids[k] by {
                assert(m.dom().contains(entries@[k].0@));
            }
            assert forall|a: Seq<char>| #[trigger] m.dom().contains(a) implies keys.contains(a) by {
                let k = choose|k: int| 0 <= k < entries@.len() && (#[trigger] entries@[k]).0@ == a;
                assert(keys[k] == a);
            }
        }
        out
    }
}

} // verus!
