//! A store that lives in memory.

use crate::backend::store::{
    batch_view, in_range, lemma_greatest_is, lemma_greatest_none, write_all, Store,
};
use crate::cow_lite::{Cow, CowBytes};
use crate::error::Error;
use crate::order::{bytes_lt, lemma_lex_transitive, lemma_lex_trichotomy, lex_le, lex_lt};
use crate::sorted::{lemma_at, lemma_index_of, SortedMap};
use vstd::prelude::*;

verus! {

/// The store as a map in memory, ordered by key bytes. Nothing outlives the
/// value, and no write fails.
#[derive(Debug, Clone)]
pub struct MemoryBackend {
    pub cache: SortedMap<Vec<u8>, Vec<u8>>,
}

/// The bytes of the values of a map of vectors.
pub open spec fn value_bytes(m: Map<Seq<u8>, Vec<u8>>) -> Map<Seq<u8>, Seq<u8>> {
    Map::new(|k: Seq<u8>| m.contains_key(k), |k: Seq<u8>| m[k]@)
}

fn copy_bytes(bytes: &[u8]) -> (r: Vec<u8>)
    ensures
        r@ == bytes@,
{
    let mut out: Vec<u8> = Vec::new();
    out.extend_from_slice(bytes);
    assert(out@ =~= bytes@);
    out
}

impl MemoryBackend {
    /// A store that holds nothing.
    pub fn new() -> (r: Self)
        ensures
            r.wf(),
            r.contents() == Map::<Seq<u8>, Seq<u8>>::empty(),
    {
        let r = MemoryBackend { cache: SortedMap::new() };
        assert(r.contents() =~= Map::<Seq<u8>, Seq<u8>>::empty());
        r
    }
}

impl Store for MemoryBackend {
    open spec fn contents(&self) -> Map<Seq<u8>, Seq<u8>> {
        value_bytes(self.cache@)
    }

    open spec fn wf(&self) -> bool {
        self.cache.wf()
    }

    open spec fn reliable(&self) -> bool {
        true
    }

    fn execute(&mut self, batch: Vec<(Vec<u8>, Vec<u8>)>) -> (r: Result<(), Error>)
    {
        let ghost all = batch_view(batch@);
        let mut i: usize = 0;
        assert(all.take(0) =~= Seq::<(Seq<u8>, Seq<u8>)>::empty());
        while i < batch.len()
            invariant
                self.wf(),
                i <= batch@.len(),
                all == batch_view(batch@),
                self.contents() == write_all(old(self).contents(), all.take(i as int)),
            decreases batch@.len() - i,
        {
            let key = copy_bytes(batch[i].0.as_slice());
            let value = copy_bytes(batch[i].1.as_slice());
            proof {
                let next = all.take(i as int + 1);
                assert(next.drop_last() =~= all.take(i as int));
                assert(next.last() == (key@, value@));
                assert(value_bytes(self.cache@.insert(key@, value)) =~= value_bytes(
                    self.cache@,
                ).insert(key@, value@));
            }
            self.cache.insert(key, value);
            i = i + 1;
        }
        assert(all.take(batch@.len() as int) =~= all);
        Ok(())
    }

    fn get_in(&self, begin_key: &[u8], end_key: &[u8]) -> (r: Result<Option<CowBytes<'_>>, Error>)
    {
        let high = copy_bytes(end_key);
        let ghost m = self.contents();
        let ghost s = self.cache.seq();
        match self.cache.floor(&high) {
            Some(i) => {
                let found = self.cache.entry(i);
                proof {
                    lemma_at(s, i as int);
                    lemma_lex_trichotomy(found.0@, end_key@);
                    lemma_lex_trichotomy(found.0@, begin_key@);
                }
                if bytes_lt(found.0.as_slice(), begin_key) {
                    proof {
                        assert forall|key: Seq<u8>| #[trigger]
                            m.contains_key(key) implies !in_range(
                            key,
                            begin_key@,
                            end_key@,
                        ) by {
                            let j = lemma_index_of(s, key);
                            lemma_lex_trichotomy(key, end_key@);
                            lemma_lex_trichotomy(key, begin_key@);
                            if j < i {
                                assert(lex_lt(s[j].0@, s[i as int].0@));
                                lemma_lex_transitive(key, found.0@, begin_key@, 0);
                            } else if j > i {
                                assert(lex_lt(end_key@, s[j].0@));
                            }
                        }
                        lemma_greatest_none(m, begin_key@, end_key@);
                    }
                    Ok(None)
                } else {
                    proof {
                        assert forall|other: Seq<u8>| #[trigger]
                            m.contains_key(other) && in_range(
                                other,
                                begin_key@,
                                end_key@,
                            ) implies lex_le(other, found.0@) by {
                            let j = lemma_index_of(s, other);
                            lemma_lex_trichotomy(other, end_key@);
                            if j < i {
                                assert(lex_lt(s[j].0@, s[i as int].0@));
                            } else if j > i {
                                assert(lex_lt(end_key@, s[j].0@));
                            }
                        }
                        lemma_greatest_is(m, begin_key@, end_key@, found.0@);
                    }
                    Ok(Some(Cow::Borrowed(&found.1)))
                }
            },
            None => {
                proof {
                    assert forall|key: Seq<u8>| #[trigger] m.contains_key(key) implies !in_range(
                        key,
                        begin_key@,
                        end_key@,
                    ) by {
                        let j = lemma_index_of(s, key);
                        assert(lex_lt(end_key@, s[j].0@));
                        lemma_lex_trichotomy(key, end_key@);
                    }
                    lemma_greatest_none(m, begin_key@, end_key@);
                }
                Ok(None)
            },
        }
    }

    fn get(&self, key: &[u8]) -> (r: Result<Option<CowBytes<'_>>, Error>)
    {
        let wanted = copy_bytes(key);
        match self.cache.get(&wanted) {
            Some(v) => Ok(Some(Cow::Borrowed(v))),
            None => Ok(None),
        }
    }
}

} // verus!
