//! Chat partners, and the directory of those that are known by name.
use vstd::prelude::*;
use crate::text::{has_prefix, lower, lowercase, opt_string, same, starts_with};

verus! {

/// A user, group or channel.
#[derive(Debug)]
pub struct Peer {
    /// The dialog identifier: positive for users, negative for groups and channels.
    pub id: i64,
    /// The display name, where it is known.
    pub name: Option<String>,
    /// The public user name, where there is one.
    pub username: Option<String>,
}

/// The model of a peer.
#[verifier::ext_equal]
pub struct PeerView {
    pub id: i64,
    pub name: Option<Seq<char>>,
    pub username: Option<Seq<char>>,
}

impl View for Peer {
    type V = PeerView;

    open spec fn view(&self) -> PeerView {
        PeerView { id: self.id, name: opt_string(self.name), username: opt_string(self.username) }
    }
}

/// The text, or a stand-in where there is none.
pub open spec fn or_else_text(o: Option<Seq<char>>, other: Seq<char>) -> Seq<char> {
    match o {
        Some(s) => s,
        None => other,
    }
}

/// The text, or a stand-in where there is none.
pub fn text_or<'a>(o: &'a Option<String>, other: &'a str) -> (r: &'a str)
    ensures
        r@ == or_else_text(opt_string(*o), other@),
{
    match o {
        Some(s) => s.as_str(),
        None => other,
    }
}

/// A copy of an optional text.
pub fn copy_text(o: &Option<String>) -> (r: Option<String>)
    ensures
        opt_string(r) == opt_string(*o),
{
    match o {
        Some(s) => Some(s.clone()),
        None => None,
    }
}

impl PeerView {
    /// The name to show.
    pub open spec fn label(self) -> Seq<char> {
        or_else_text(self.name, "Unknown"@)
    }

    /// The name to look the peer up by.
    pub open spec fn key(self) -> Seq<char> {
        lowercase(self.label())
    }
}

impl Clone for Peer {
    fn clone(&self) -> (r: Self)
        ensures
            r@ == self@,
    {
        Peer { id: self.id, name: copy_text(&self.name), username: copy_text(&self.username) }
    }
}

impl Peer {
    /// The name to show.
    pub fn label(&self) -> (r: &str)
        ensures
            r@ == self@.label(),
    {
        text_or(&self.name, "Unknown")
    }

    /// The name to look the peer up by.
    pub fn key(&self) -> (r: String)
        ensures
            r@ == self@.key(),
    {
        lower(self.label())
    }
}

/// A map from lower-case names to peers.
#[derive(Debug)]
pub struct ChatMap {
    entries: Vec<(String, Peer)>,
}

impl ChatMap {
    spec fn at(self, k: Seq<char>) -> int {
        choose|i: int| 0 <= i < self.entries@.len() && (#[trigger] self.entries@[i]).0@ == k
    }

    spec fn holds(self, k: Seq<char>) -> bool {
        exists|i: int| 0 <= i < self.entries@.len() && (#[trigger] self.entries@[i]).0@ == k
    }

    /// No name occurs twice.
    pub closed spec fn wf(self) -> bool {
        forall|i: int, j: int|
            0 <= i < j < self.entries@.len() ==> (#[trigger] self.entries@[i]).0@ != (
            #[trigger] self.entries@[j]).0@
    }
}

impl View for ChatMap {
    type V = Map<Seq<char>, PeerView>;

    closed spec fn view(&self) -> Map<Seq<char>, PeerView> {
        Map::new(|k: Seq<char>| self.holds(k), |k: Seq<char>| self.entries@[self.at(k)].1@)
    }
}

/// The longest of the first `n` prefixes of `lc` that is a name in `chats`.
pub open spec fn longest_key(chats: Map<Seq<char>, PeerView>, lc: Seq<char>, n: nat) -> Option<
    Seq<char>,
>
    decreases n,
{
    if chats.dom().contains(lc.take(n as int)) {
        Some(lc.take(n as int))
    } else if n == 0 {
        None
    } else {
        longest_key(chats, lc, (n - 1) as nat)
    }
}

/// The longest name in `chats` that the lower-case text `lc` starts with.
pub open spec fn best_match(chats: Map<Seq<char>, PeerView>, lc: Seq<char>) -> Option<Seq<char>> {
    longest_key(chats, lc, lc.len())
}

proof fn lemma_longest_is(chats: Map<Seq<char>, PeerView>, lc: Seq<char>, n: nat, k: Seq<char>)
    requires
        n <= lc.len(),
        chats.dom().contains(k),
        has_prefix(lc, k),
        k.len() <= n,
        forall|o: Seq<char>| #[trigger]
            chats.dom().contains(o) && has_prefix(lc, o) ==> o.len() <= k.len(),
    ensures
        longest_key(chats, lc, n) == Some(k),
    decreases n,
{
    if n > k.len() {
        assert(lc.take(n as int).take(n as int) == lc.take(n as int));
        assert(has_prefix(lc, lc.take(n as int)));
        lemma_longest_is(chats, lc, (n - 1) as nat, k);
    }
}

proof fn lemma_longest_none(chats: Map<Seq<char>, PeerView>, lc: Seq<char>, n: nat)
    requires
        n <= lc.len(),
        forall|o: Seq<char>| #[trigger] chats.dom().contains(o) ==> !has_prefix(lc, o),
    ensures
        longest_key(chats, lc, n) is None,
    decreases n,
{
    assert(has_prefix(lc, lc.take(n as int)));
    if n > 0 {
        lemma_longest_none(chats, lc, (n - 1) as nat);
    }
}

proof fn lemma_longest_found(chats: Map<Seq<char>, PeerView>, lc: Seq<char>, n: nat)
    requires
        n <= lc.len(),
    ensures
        match longest_key(chats, lc, n) {
            Some(k) => {
                &&& chats.dom().contains(k)
                &&& has_prefix(lc, k)
                &&& k.len() <= n
                &&& forall|o: Seq<char>| #[trigger]
                    chats.dom().contains(o) && has_prefix(lc, o) && o.len() <= n ==> o.len()
                        <= k.len()
            },
            None => forall|o: Seq<char>| #[trigger]
                chats.dom().contains(o) && o.len() <= n ==> !has_prefix(lc, o),
        },
    decreases n,
{
    assert(has_prefix(lc, lc.take(n as int)));
    if !chats.dom().contains(lc.take(n as int)) {
        if n > 0 {
            lemma_longest_found(chats, lc, (n - 1) as nat);
        }
        assert forall|o: Seq<char>| #[trigger]
            chats.dom().contains(o) && has_prefix(lc, o) && o.len() <= n implies o.len() < n by {
            if o.len() == n {
                assert(o == lc.take(n as int));
            }
        }
    }
}

/// A name is the best match exactly when it is known, the text starts with it, and
/// no longer known name starts the text; there is none exactly when no known name
/// starts the text.
pub proof fn best_match_is_longest(chats: Map<Seq<char>, PeerView>, lc: Seq<char>)
    ensures
        forall|k: Seq<char>| #[trigger]
            chats.dom().contains(k) ==> (best_match(chats, lc) == Some(k) <==> has_prefix(lc, k)
                && forall|o: Seq<char>| #[trigger]
                chats.dom().contains(o) && has_prefix(lc, o) ==> o.len() <= k.len()),
        best_match(chats, lc) matches Some(k) ==> chats.dom().contains(k) && has_prefix(lc, k),
        best_match(chats, lc) is None <==> forall|o: Seq<char>| #[trigger]
            chats.dom().contains(o) ==> !has_prefix(lc, o),
{
    lemma_longest_found(chats, lc, lc.len());
    assert forall|k: Seq<char>| #[trigger]
        chats.dom().contains(k) && has_prefix(lc, k) && (forall|o: Seq<char>| #[trigger]
            chats.dom().contains(o) && has_prefix(lc, o) ==> o.len() <= k.len()) implies best_match(
        chats,
        lc,
    ) == Some(k) by {
        lemma_longest_is(chats, lc, lc.len(), k);
    }
}

impl ChatMap {
    /// The map without names.
    pub fn new() -> (r: ChatMap)
        ensures
            r.wf(),
            r@ == Map::<Seq<char>, PeerView>::empty(),
    {
        let r = ChatMap { entries: Vec::new() };
        assert(r@ == Map::<Seq<char>, PeerView>::empty());
        r
    }

    fn find(&self, key: &str) -> (r: Option<usize>)
        requires
            self.wf(),
        ensures
            match r {
                Some(i) => i < self.entries@.len() && self.entries@[i as int].0@ == key@
                    && self.holds(key@) && self.at(key@) == i,
                None => !self.holds(key@),
            },
    {
        let mut i: usize = 0;
        while i < self.entries.len()
            invariant
                i <= self.entries@.len(),
                self.wf(),
                forall|j: int| 0 <= j < i ==> (#[trigger] self.entries@[j]).0@ != key@,
            decreases self.entries.len() - i,
        {
            if same(self.entries[i].0.as_str(), key) {
                assert(self.holds(key@));
                assert(self.entries@[self.at(key@)].0@ == key@);
                return Some(i);
            }
            i = i + 1;
        }
        None
    }

    /// Puts `peer` under `key`, in place of what was there.
    pub fn insert(&mut self, key: String, peer: Peer)
        requires
            old(self).wf(),
        ensures
            final(self).wf(),
            final(self)@ == old(self)@.insert(key@, peer@),
    {
        let ghost before = *self;
        match self.find(key.as_str()) {
            Some(i) => {
                let ghost kv = key@;
                self.entries.set(i, (key, peer));
                assert(self.wf()) by {
                    assert forall|a: int, b: int| 0 <= a < b < self.entries@.len() implies (
                    #[trigger] self.entries@[a]).0@ != (#[trigger] self.entries@[b]).0@ by {
                        assert(before.entries@[a].0@ != before.entries@[b].0@);
                    }
                }
                assert(self.entries@[i as int].0@ == kv);
                assert forall|k: Seq<char>| #[trigger] self.holds(k) == before.holds(k) by {
                    if self.holds(k) {
                        let j = self.at(k);
                        assert(before.entries@[j].0@ == k);
                    }
                    if before.holds(k) {
                        let j = before.at(k);
                        assert(self.entries@[j].0@ == k);
                    }
                }
                assert forall|k: Seq<char>| self.holds(k) implies #[trigger] self@[k]
                    == before@.insert(kv, peer@)[k] by {
                    let j = self.at(k);
                    assert(before.holds(k));
                    assert(before.entries@[j].0@ == k);
                    assert(before.entries@[before.at(k)].0@ == k);
                    assert(before.at(k) == j);
                }
                assert(self@ =~= before@.insert(kv, peer@));
            },
            None => {
                let ghost kv = key@;
                let ghost pv = peer@;
                self.entries.push((key, peer));
                let ghost n = before.entries@.len() as int;
                assert(self.entries@[n].0@ == kv);
                assert(self.wf()) by {
                    assert forall|a: int, b: int| 0 <= a < b < self.entries@.len() implies (
                    #[trigger] self.entries@[a]).0@ != (#[trigger] self.entries@[b]).0@ by {
                        assert(before.entries@[a] == self.entries@[a]);
                        if b < n {
                            assert(before.entries@[b] == self.entries@[b]);
                        }
                    }
                }
                assert forall|k: Seq<char>| #[trigger]
                    self.holds(k) == (before.holds(k) || k == kv) by {
                    if self.holds(k) {
                        let j = self.at(k);
                        if j < n {
                            assert(before.entries@[j].0@ == k);
                        }
                    }
                    if before.holds(k) {
                        let j = before.at(k);
                        assert(self.entries@[j].0@ == k);
                    }
                }
                assert forall|k: Seq<char>| self.holds(k) implies #[trigger] self@[k]
                    == before@.insert(kv, pv)[k] by {
                    let j = self.at(k);
                    assert(self.entries@[j].0@ == k);
                    if j < n {
                        assert(before.entries@[j].0@ == k);
                        assert(before.holds(k));
                        assert(before.entries@[before.at(k)].0@ == k);
                        assert(before.at(k) == j);
                    }
                }
                assert(self@ =~= before@.insert(kv, pv));
            },
        }
    }

    /// The peer under `key`.
    pub fn get(&self, key: &str) -> (r: Option<&Peer>)
        requires
            self.wf(),
        ensures
            match r {
                Some(p) => self@.dom().contains(key@) && p@ == self@[key@],
                None => !self@.dom().contains(key@),
            },
    {
        match self.find(key) {
            Some(i) => Some(&self.entries[i].1),
            None => None,
        }
    }

    /// The longest name that the lower-case text `lc` starts with.
    pub fn find_longest(&self, lc: &str) -> (r: Option<String>)
        requires
            self.wf(),
        ensures
            opt_string(r) == best_match(self@, lc@),
    {
        let mut best: Option<usize> = None;
        let mut i: usize = 0;
        while i < self.entries.len()
            invariant
                i <= self.entries@.len(),
                self.wf(),
                match best {
                    Some(b) => {
                        &&& b < i
                        &&& has_prefix(lc@, self.entries@[b as int].0@)
                        &&& forall|j: int|
                            0 <= j < i && has_prefix(lc@, (#[trigger] self.entries@[j]).0@)
                                ==> self.entries@[j].0@.len() <= self.entries@[b as int].0@.len()
                    },
                    None => forall|j: int|
                        0 <= j < i ==> !has_prefix(lc@, (#[trigger] self.entries@[j]).0@),
                },
            decreases self.entries.len() - i,
        {
            if starts_with(lc, self.entries[i].0.as_str()) {
                let n = self.entries[i].0.as_str().unicode_len();
                let longer = match best {
                    Some(b) => n > self.entries[b].0.as_str().unicode_len(),
                    None => true,
                };
                if longer {
                    best = Some(i);
                }
            }
            i = i + 1;
        }
        match best {
            Some(b) => {
                let k = self.entries[b].0.clone();
                proof {
                    assert(self.holds(k@));
                    assert forall|o: Seq<char>| #[trigger]
                        self@.dom().contains(o) && has_prefix(lc@, o) implies o.len()
                        <= k@.len() by {
                        assert(self.entries@[self.at(o)].0@ == o);
                    }
                    lemma_longest_is(self@, lc@, lc@.len(), k@);
                }
                Some(k)
            },
            None => {
                proof {
                    assert forall|o: Seq<char>| #[trigger] self@.dom().contains(o) implies !has_prefix(
                        lc@,
                        o,
                    ) by {
                        assert(self.entries@[self.at(o)].0@ == o);
                    }
                    lemma_longest_none(self@, lc@, lc@.len());
                }
                None
            },
        }
    }
}

} // verus!
