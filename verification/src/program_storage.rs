//! The stored program: a map from line index to statement text, ordered by
//! line index.
//!
//! The entries are held sorted by strictly ascending line index, which gives
//! unique keys and in-order iteration.

use vstd::prelude::*;
use crate::text::ascii_text;
use crate::types::LineIndex;

verus! {

/// An ordered map from line index to statement text.
pub struct ProgramStorage {
    pub entries: Vec<(LineIndex, Vec<u8>)>,
}

impl ProgramStorage {
    /// The line index of the entry at position `i`.
    pub open spec fn key_at(self, i: int) -> int {
        self.entries@[i].0.spec_value()
    }

    /// The statement text of the entry at position `i`.
    pub open spec fn text_at(self, i: int) -> Seq<u8> {
        self.entries@[i].1@
    }

    /// The number of stored lines.
    pub open spec fn spec_len(self) -> int {
        self.entries@.len() as int
    }

    /// The entries are sorted by strictly ascending line index, every index
    /// is valid, and every statement is ASCII.
    pub open spec fn wf(self) -> bool {
        &&& forall|i: int, j: int|
            0 <= i < j < self.spec_len() ==> #[trigger] self.key_at(i) < #[trigger] self.key_at(j)
        &&& forall|i: int| 0 <= i < self.spec_len() ==> (#[trigger] self.entries@[i].0).valid()
        &&& forall|i: int| 0 <= i < self.spec_len() ==> ascii_text(#[trigger] self.entries@[i].1@)
    }

    /// Whether some line is stored at index `k`.
    pub open spec fn has_key(self, k: int) -> bool {
        exists|i: int| 0 <= i < self.spec_len() && self.key_at(i) == k
    }

    /// The position of the entry with index `k`.
    pub open spec fn index_of(self, k: int) -> int {
        choose|i: int| 0 <= i < self.spec_len() && self.key_at(i) == k
    }

    /// The text stored at index `k`, if any.
    pub open spec fn spec_get(self, k: int) -> Option<Seq<u8>> {
        if self.has_key(k) {
            Some(self.text_at(self.index_of(k)))
        } else {
            None
        }
    }

    /// Whether some stored line index is strictly greater than `k`.
    pub open spec fn has_successor(self, k: int) -> bool {
        exists|j: int| #[trigger] self.has_key(j) && j > k
    }

    /// The smallest stored line index strictly greater than `k`.
    pub open spec fn spec_successor(self, k: int) -> int {
        choose|j: int|
            #[trigger] self.has_key(j) && j > k && (forall|m: int|
                #[trigger] self.has_key(m) && m > k ==> j <= m)
    }

    /// The successor of `k`, if any.
    pub open spec fn successor_opt(self, k: int) -> Option<int> {
        if self.has_successor(k) {
            Some(self.spec_successor(k))
        } else {
            None
        }
    }

    /// In a sorted storage the entry at each position is the one its key
    /// looks up.
    pub proof fn lemma_get_at(self, i: int)
        requires
            self.wf(),
            0 <= i < self.spec_len(),
        ensures
            self.has_key(self.key_at(i)),
            self.index_of(self.key_at(i)) == i,
            self.spec_get(self.key_at(i)) == Some(self.text_at(i)),
    {
        assert(self.has_key(self.key_at(i)));
        let j = self.index_of(self.key_at(i));
        if i < j {
            assert(self.key_at(i) < self.key_at(j));
        }
        if j < i {
            assert(self.key_at(j) < self.key_at(i));
        }
    }

    /// An empty storage.
    pub fn new() -> (r: Self)
        ensures
            r.wf(),
            r.spec_len() == 0,
            forall|k: int| r.spec_get(k) is None,
    {
        ProgramStorage { entries: Vec::new() }
    }

    /// Removes all stored lines.
    pub fn clear(&mut self)
        ensures
            final(self).wf(),
            final(self).spec_len() == 0,
            forall|k: int| final(self).spec_get(k) is None,
    {
        self.entries.clear();
    }

    /// The position of the first entry whose index is at least `key`.
    fn find_pos(&self, key: i16) -> (p: usize)
        requires
            self.wf(),
        ensures
            0 <= p <= self.spec_len(),
            forall|i: int| 0 <= i < p ==> #[trigger] self.key_at(i) < key,
            p < self.spec_len() ==> self.key_at(p as int) >= key,
    {
        let n = self.entries.len();
        let mut p: usize = 0;
        while p < n && self.entries[p].0.value() < key
            invariant
                self.wf(),
                n == self.spec_len(),
                0 <= p <= n,
                forall|i: int| 0 <= i < p ==> #[trigger] self.key_at(i) < key,
            decreases n - p,
        {
            p += 1;
        }
        p
    }

    /// The text stored at `line_index`, or nothing.
    pub fn get_line(&self, line_index: LineIndex) -> (r: Option<Vec<u8>>)
        requires
            self.wf(),
        ensures
            match r {
                Some(t) => self.spec_get(line_index.spec_value()) == Some(t@) && ascii_text(t@),
                None => self.spec_get(line_index.spec_value()) is None,
            },
    {
        let key = line_index.value();
        let p = self.find_pos(key);
        if p < self.entries.len() && self.entries[p].0.value() == key {
            proof {
                self.lemma_get_at(p as int);
            }
            Some(self.entries[p].1.clone())
        } else {
            proof {
                if self.has_key(key as int) {
                    let i = self.index_of(key as int);
                    assert(0 <= i < self.spec_len() && self.key_at(i) == key);
                    if i < p {
                        assert(self.key_at(i) < key);
                    } else if (p as int) < i {
                        assert(self.key_at(p as int) < self.key_at(i));
                    }
                    assert(false);
                }
            }
            None
        }
    }

    /// Stores `line_contents` at `line_index`, replacing any previous text
    /// at that index and leaving every other index unchanged.
    pub fn insert_line(&mut self, line_index: LineIndex, line_contents: Vec<u8>)
        requires
            old(self).wf(),
            line_index.valid(),
            ascii_text(line_contents@),
        ensures
            final(self).wf(),
            final(self).spec_get(line_index.spec_value()) == Some(line_contents@),
            forall|k: int|
                k != line_index.spec_value() ==> #[trigger] final(self).spec_get(k) == old(
                    self,
                ).spec_get(k),
    {
        let ghost pre = *self;
        let key = line_index.value();
        let p = self.find_pos(key);
        let replace = p < self.entries.len() && self.entries[p].0.value() == key;
        if replace {
            self.entries.remove(p);
        }
        let ghost mid = *self;
        let ghost elem = (line_index, line_contents);
        self.entries.insert(p, (line_index, line_contents));
        proof {
            let del: int = if replace {
                1
            } else {
                0
            };
            if replace {
                pre.entries@.remove_ensures(p as int);
            }
            mid.entries@.insert_ensures(p as int, elem);
            // How the new entry table maps onto the old one.
            assert(self.spec_len() == pre.spec_len() + 1 - del);
            assert(self.entries@[p as int] == elem);
            assert forall|i: int| 0 <= i < p implies #[trigger] self.entries@[i]
                == pre.entries@[i] by {
                assert(self.entries@[i] == mid.entries@[i]);
            }
            assert forall|i: int| p < i < self.spec_len() implies #[trigger] self.entries@[i]
                == pre.entries@[i - 1 + del] by {
                assert(self.entries@[i] == mid.entries@[i - 1]);
            }
            assert(self.key_at(p as int) == key);
            // The table stays sorted.
            assert forall|i: int, j: int| 0 <= i < j < self.spec_len() implies #[trigger] self.key_at(
                i,
            ) < #[trigger] self.key_at(j) by {
                if j < p {
                    assert(pre.key_at(i) < pre.key_at(j));
                } else if j == p {
                    assert(pre.key_at(i) < key);
                } else if i == p {
                    let jj = j - 1 + del;
                    if replace {
                        assert(pre.key_at(p as int) == key);
                        assert(pre.key_at(p as int) < pre.key_at(jj));
                    } else {
                        assert(pre.key_at(jj) >= key);
                        if pre.key_at(jj) == key {
                            assert(jj >= p);
                            if jj > p {
                                assert(pre.key_at(p as int) < pre.key_at(jj));
                                assert(pre.key_at(p as int) >= key);
                                assert(false);
                            }
                            assert(false);
                        }
                    }
                } else if i < p {
                    assert(pre.key_at(i) < key);
                    if replace {
                        assert(pre.key_at(p as int) == key);
                        if j - 1 + del > p {
                            assert(pre.key_at(p as int) < pre.key_at(j - 1 + del));
                        }
                    } else {
                        assert(pre.key_at(j - 1) >= pre.key_at(p as int) >= key);
                    }
                } else {
                    assert(pre.key_at(i - 1 + del) < pre.key_at(j - 1 + del));
                }
            }
            assert forall|i: int| 0 <= i < self.spec_len() implies (
            #[trigger] self.entries@[i].0).valid() by {
                if i < p {
                    assert(pre.entries@[i].0.valid());
                } else if i > p {
                    assert(pre.entries@[i - 1 + del].0.valid());
                }
            }
            assert forall|i: int| 0 <= i < self.spec_len() implies ascii_text(
                #[trigger] self.entries@[i].1@,
            ) by {
                if i < p {
                    assert(ascii_text(pre.entries@[i].1@));
                } else if i > p {
                    assert(ascii_text(pre.entries@[i - 1 + del].1@));
                }
            }
            self.lemma_get_at(p as int);
            assert forall|k: int| k != line_index.spec_value() implies #[trigger] self.spec_get(k)
                == pre.spec_get(k) by {
                lemma_insert_frame(pre, *self, p as int, del, key as int, k);
            }
        }
    }

    /// Removes the line stored at `line_index`; absent indices are left as
    /// they are, without error.
    pub fn erase_line(&mut self, line_index: LineIndex)
        requires
            old(self).wf(),
        ensures
            final(self).wf(),
            final(self).spec_get(line_index.spec_value()) is None,
            forall|k: int|
                k != line_index.spec_value() ==> #[trigger] final(self).spec_get(k) == old(
                    self,
                ).spec_get(k),
    {
        let ghost pre = *self;
        let key = line_index.value();
        let p = self.find_pos(key);
        if p < self.entries.len() && self.entries[p].0.value() == key {
            self.entries.remove(p);
            proof {
                pre.entries@.remove_ensures(p as int);
                assert(self.spec_len() == pre.spec_len() - 1);
                assert forall|i: int| 0 <= i < p implies #[trigger] self.entries@[i]
                    == pre.entries@[i] by {}
                assert forall|i: int| p <= i < self.spec_len() implies #[trigger] self.entries@[i]
                    == pre.entries@[i + 1] by {}
                assert forall|i: int, j: int|
                    0 <= i < j < self.spec_len() implies #[trigger] self.key_at(i)
                    < #[trigger] self.key_at(j) by {
                    let ii = if i < p {
                        i
                    } else {
                        i + 1
                    };
                    let jj = if j < p {
                        j
                    } else {
                        j + 1
                    };
                    assert(pre.key_at(ii) < pre.key_at(jj));
                }
                assert forall|i: int| 0 <= i < self.spec_len() implies (
                #[trigger] self.entries@[i].0).valid() by {
                    if i < p {
                        assert(pre.entries@[i].0.valid());
                    } else {
                        assert(pre.entries@[i + 1].0.valid());
                    }
                }
                assert forall|i: int| 0 <= i < self.spec_len() implies ascii_text(
                    #[trigger] self.entries@[i].1@,
                ) by {
                    if i < p {
                        assert(ascii_text(pre.entries@[i].1@));
                    } else {
                        assert(ascii_text(pre.entries@[i + 1].1@));
                    }
                }
                if self.has_key(key as int) {
                    let i = self.index_of(key as int);
                    assert(0 <= i < self.spec_len() && self.key_at(i) == key);
                    if i < p {
                        assert(pre.key_at(i) < key);
                    } else {
                        assert(pre.key_at(p as int) < pre.key_at(i + 1));
                    }
                    assert(false);
                }
                assert forall|k: int| k != line_index.spec_value() implies #[trigger] self.spec_get(
                    k,
                ) == pre.spec_get(k) by {
                    lemma_erase_frame(pre, *self, p as int, key as int, k);
                }
            }
        } else {
            proof {
                if pre.has_key(key as int) {
                    let i = pre.index_of(key as int);
                    assert(0 <= i < pre.spec_len() && pre.key_at(i) == key);
                    if i < p {
                        assert(pre.key_at(i) < key);
                    } else if (p as int) < i {
                        assert(pre.key_at(p as int) < pre.key_at(i));
                    }
                    assert(false);
                }
            }
        }
    }

    /// The smallest stored line index, or nothing when the program is empty.
    pub fn get_first_line_index(&self) -> (r: Option<LineIndex>)
        requires
            self.wf(),
        ensures
            match r {
                Some(ix) => {
                    &&& ix.valid()
                    &&& self.has_key(ix.spec_value())
                    &&& forall|k: int| #[trigger] self.has_key(k) ==> ix.spec_value() <= k
                },
                None => self.spec_len() == 0,
            },
    {
        if self.entries.len() == 0 {
            None
        } else {
            proof {
                self.lemma_get_at(0);
                assert forall|k: int| #[trigger] self.has_key(k) implies self.key_at(0) <= k by {
                    let i = self.index_of(k);
                    assert(0 <= i < self.spec_len() && self.key_at(i) == k);
                    if i > 0 {
                        assert(self.key_at(0) < self.key_at(i));
                    }
                }
                assert(self.entries@[0].0.valid());
            }
            Some(self.entries[0].0)
        }
    }

    /// The smallest stored line index strictly greater than `line_index`,
    /// or nothing when no stored index is greater.
    pub fn get_following_line_index(&self, line_index: LineIndex) -> (r: Option<LineIndex>)
        requires
            self.wf(),
        ensures
            match r {
                Some(ix) => {
                    &&& ix.valid()
                    &&& self.has_key(ix.spec_value())
                    &&& ix.spec_value() > line_index.spec_value()
                    &&& forall|k: int|
                        #[trigger] self.has_key(k) && k > line_index.spec_value()
                            ==> ix.spec_value() <= k
                },
                None => forall|k: int|
                    #[trigger] self.has_key(k) ==> k <= line_index.spec_value(),
            },
    {
        let key = line_index.value();
        let n = self.entries.len();
        let mut p: usize = 0;
        while p < n && self.entries[p].0.value() <= key
            invariant
                self.wf(),
                n == self.spec_len(),
                0 <= p <= n,
                forall|i: int| 0 <= i < p ==> #[trigger] self.key_at(i) <= key,
            decreases n - p,
        {
            p += 1;
        }
        if p < n {
            proof {
                self.lemma_get_at(p as int);
                assert(self.entries@[p as int].0.valid());
                assert forall|k: int| #[trigger] self.has_key(k) && k > key implies self.key_at(
                    p as int,
                ) <= k by {
                    let i = self.index_of(k);
                    assert(0 <= i < self.spec_len() && self.key_at(i) == k);
                    if i < p {
                        assert(self.key_at(i) <= key);
                    } else if i > p {
                        assert(self.key_at(p as int) < self.key_at(i));
                    }
                }
            }
            Some(self.entries[p].0)
        } else {
            proof {
                assert forall|k: int| #[trigger] self.has_key(k) implies k <= key by {
                    let i = self.index_of(k);
                    assert(0 <= i < self.spec_len() && self.key_at(i) == k);
                    assert(self.key_at(i) <= key);
                }
            }
            None
        }
    }

    /// All stored lines, as `(index, text)` pairs in strictly ascending
    /// index order.
    pub fn iter(&self) -> (r: Vec<(LineIndex, Vec<u8>)>)
        requires
            self.wf(),
        ensures
            r@.len() == self.spec_len(),
            forall|i: int|
                0 <= i < r@.len() ==> (#[trigger] r@[i]).0 == self.entries@[i].0 && r@[i].1@
                    == self.text_at(i),
            forall|i: int, j: int|
                0 <= i < j < r@.len() ==> (#[trigger] r@[i]).0.spec_value() < (#[trigger] r@[
                    j
                ]).0.spec_value(),
    {
        let n = self.entries.len();
        let mut r: Vec<(LineIndex, Vec<u8>)> = Vec::new();
        let mut i: usize = 0;
        while i < n
            invariant
                self.wf(),
                n == self.spec_len(),
                0 <= i <= n,
                r@.len() == i,
                forall|j: int|
                    0 <= j < i ==> (#[trigger] r@[j]).0 == self.entries@[j].0 && r@[j].1@
                        == self.text_at(j),
            decreases n - i,
        {
            let ix = self.entries[i].0;
            let text = self.entries[i].1.clone();
            r.push((ix, text));
            i += 1;
        }
        proof {
            assert forall|a: int, b: int| 0 <= a < b < r@.len() implies (
            #[trigger] r@[a]).0.spec_value() < (#[trigger] r@[b]).0.spec_value() by {
                assert(r@[a].0 == self.entries@[a].0);
                assert(r@[b].0 == self.entries@[b].0);
                assert(self.key_at(a) < self.key_at(b));
            }
        }
        r
    }
}

/// After inserting at position `p` (replacing `del` entries), any other key
/// looks up what it did before.
proof fn lemma_insert_frame(
    pre: ProgramStorage,
    post: ProgramStorage,
    p: int,
    del: int,
    key: int,
    k: int,
)
    requires
        pre.wf(),
        post.wf(),
        del == 0 || del == 1,
        0 <= p <= pre.spec_len() - del,
        post.spec_len() == pre.spec_len() + 1 - del,
        forall|i: int| 0 <= i < p ==> #[trigger] post.entries@[i] == pre.entries@[i],
        post.key_at(p) == key,
        forall|i: int|
            p < i < post.spec_len() ==> #[trigger] post.entries@[i] == pre.entries@[i - 1 + del],
        del == 1 ==> pre.key_at(p) == key,
        forall|i: int| 0 <= i < p ==> #[trigger] pre.key_at(i) < key,
        k != key,
    ensures
        post.spec_get(k) == pre.spec_get(k),
{
    if pre.has_key(k) {
        let i = pre.index_of(k);
        assert(0 <= i < pre.spec_len() && pre.key_at(i) == k);
        if i < p {
            assert(post.key_at(i) == k);
            post.lemma_get_at(i);
            pre.lemma_get_at(i);
        } else {
            if del == 1 && i == p {
                assert(pre.key_at(p) == key);
                assert(false);
            }
            assert(post.entries@[i + 1 - del] == pre.entries@[i]);
            assert(post.key_at(i + 1 - del) == k);
            post.lemma_get_at(i + 1 - del);
            pre.lemma_get_at(i);
        }
    } else {
        if post.has_key(k) {
            let i = post.index_of(k);
            assert(0 <= i < post.spec_len() && post.key_at(i) == k);
            if i < p {
                assert(pre.key_at(i) == k);
            } else if i == p {
                assert(post.key_at(p) == key);
            } else {
                assert(pre.key_at(i - 1 + del) == k);
            }
            assert(false);
        }
    }
}

/// After removing the entry at position `p`, any other key looks up what it
/// did before.
proof fn lemma_erase_frame(pre: ProgramStorage, post: ProgramStorage, p: int, key: int, k: int)
    requires
        pre.wf(),
        post.wf(),
        0 <= p < pre.spec_len(),
        post.spec_len() == pre.spec_len() - 1,
        pre.key_at(p) == key,
        forall|i: int| 0 <= i < p ==> #[trigger] post.entries@[i] == pre.entries@[i],
        forall|i: int|
            p <= i < post.spec_len() ==> #[trigger] post.entries@[i] == pre.entries@[i + 1],
        k != key,
    ensures
        post.spec_get(k) == pre.spec_get(k),
{
    if pre.has_key(k) {
        let i = pre.index_of(k);
        assert(0 <= i < pre.spec_len() && pre.key_at(i) == k);
        if i < p {
            assert(post.key_at(i) == k);
            post.lemma_get_at(i);
            pre.lemma_get_at(i);
        } else {
            if i == p {
                assert(false);
            }
            assert(post.entries@[i - 1] == pre.entries@[i]);
            assert(post.key_at(i - 1) == k);
            post.lemma_get_at(i - 1);
            pre.lemma_get_at(i);
        }
    } else {
        if post.has_key(k) {
            let i = post.index_of(k);
            assert(0 <= i < post.spec_len() && post.key_at(i) == k);
            if i < p {
                assert(pre.key_at(i) == k);
            } else {
                assert(pre.key_at(i + 1) == k);
            }
            assert(false);
        }
    }
}

} // verus!
