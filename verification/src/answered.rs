//! The transactions that have been answered.

use std::collections::HashMap;
use vstd::hash_map::StringHashMap;
use vstd::prelude::*;

use crate::nxdomain::Link;

verus! {

/// An exchange of a query and its response: a transaction identifier, the
/// client that sent the query, and the server that it was sent to.
pub struct Exchange {
    pub txid: u16,
    pub client: Seq<char>,
    pub server: Seq<char>,
}

/// A transaction of a client, whichever server it was sent to.
pub struct Transaction {
    pub txid: u16,
    pub client: Seq<char>,
}

impl Exchange {
    /// The two ends of the exchange.
    pub open spec fn link(self) -> Link {
        Link { client: self.client, server: self.server }
    }

    /// The transaction of the exchange.
    pub open spec fn transaction(self) -> Transaction {
        Transaction { txid: self.txid, client: self.client }
    }
}

/// For each answered transaction, the source of its first answer.
pub struct AnsweredTable {
    buckets: HashMap<u16, StringHashMap<String>>,
}

impl View for AnsweredTable {
    type V = Map<Transaction, Seq<char>>;

    closed spec fn view(&self) -> Map<Transaction, Seq<char>> {
        Map::new(
            |t: Transaction|
                self.buckets@.contains_key(t.txid) && self.buckets@[t.txid]@.contains_key(
                    t.client,
                ),
            |t: Transaction| self.buckets@[t.txid]@[t.client]@,
        )
    }
}

impl AnsweredTable {
    /// A table without transactions.
    pub fn new() -> (res: Self)
        ensures
            res@ == Map::<Transaction, Seq<char>>::empty(),
    {
        broadcast use vstd::std_specs::hash::group_hash_axioms;

        let res = AnsweredTable { buckets: HashMap::new() };
        assert(res@ =~= Map::<Transaction, Seq<char>>::empty());
        res
    }

    /// The source of the first answer to a transaction.
    pub fn first_src(&self, txid: u16, client: &str) -> (res: Option<&str>)
        ensures
            ({
                let t = Transaction { txid, client: client@ };
                match res {
                    Some(src) => self@.contains_key(t) && self@[t] == src@,
                    None => !self@.contains_key(t),
                }
            }),
    {
        broadcast use vstd::std_specs::hash::group_hash_axioms;

        match self.buckets.get(&txid) {
            Some(sources) => match sources.get(client) {
                Some(src) => Some(src.as_str()),
                None => None,
            },
            None => None,
        }
    }

    /// Remembers the source of an answer to a transaction.
    pub fn insert(&mut self, txid: u16, client: &str, src: &str)
        ensures
            final(self)@ == old(self)@.insert((Transaction { txid, client: client@ }), src@),
    {
        broadcast use vstd::std_specs::hash::group_hash_axioms;

        let mut sources: StringHashMap<String> = match self.buckets.remove(&txid) {
            Some(sources) => sources,
            None => StringHashMap::new(),
        };
        sources.insert(client.to_string(), src.to_string());
        self.buckets.insert(txid, sources);
        assert(self@ =~= old(self)@.insert((Transaction { txid, client: client@ }), src@));
    }
}

} // verus!
