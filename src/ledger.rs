use vstd::prelude::*;

use crate::model::{
    lemma_comment_consistent, lemma_like_consistent, lemma_mint_consistent,
    lemma_owned_total_bounds, lemma_unlike_consistent, owned_by, LedgerModel, DEFAULT_PAGE,
    MAX_COMMENT_CHARS, MAX_PAGE,
};
use crate::types::{Comment, CommentView, LedgerError, MemeNFT, MemeView, UserStats};

verus! {

/// The identities of a like list, as character sequences.
pub open spec fn names(v: Seq<String>) -> Seq<Seq<char>> {
    v.map_values(|s: String| s@)
}

/// The like set that a stored like list stands for.
pub open spec fn like_set(o: Option<Vec<String>>) -> Option<Set<Seq<char>>> {
    match o {
        Some(v) => Some(names(v@).to_set()),
        None => None,
    }
}

/// The comment log that a stored comment list stands for.
pub open spec fn log_view(v: Vec<Comment>) -> Seq<CommentView> {
    log_view_seq(v@)
}

pub open spec fn log_view_seq(v: Seq<Comment>) -> Seq<CommentView> {
    v.map_values(|c: Comment| c@)
}

/// Whether `user` has stored counters.
pub open spec fn has_slot(owners: Seq<String>, user: Seq<char>) -> bool {
    exists|j: int| 0 <= j < owners.len() && owners[j]@ == user
}

/// The slot of `user` in the list of identities that have stored counters.
pub open spec fn slot_of(owners: Seq<String>, user: Seq<char>) -> int {
    choose|j: int| 0 <= j < owners.len() && owners[j]@ == user
}

/// The ledger: every minted meme in minting order, with its like list and
/// comment log in the slot of the same index, and the counters of each
/// identity that owns a liked or commented meme.
/// Taking one slot out of a list without repeats takes exactly its element out
/// of the list's set, and leaves no repeats.
proof fn lemma_remove_to_set(s: Seq<Seq<char>>, j: int)
    requires
        s.no_duplicates(),
        0 <= j < s.len(),
    ensures
        s.remove(j).to_set() == s.to_set().remove(s[j]),
        s.remove(j).no_duplicates(),
{
    let t = s.remove(j);
    assert forall|a: Seq<char>| t.to_set().contains(a) <==> s.to_set().remove(s[j]).contains(a) by {
        if t.contains(a) {
            let k = choose|k: int| 0 <= k < t.len() && t[k] == a;
            if k < j {
                assert(s[k] == a);
            } else {
                assert(s[k + 1] == a);
            }
        }
        if s.contains(a) && a != s[j] {
            let k = choose|k: int| 0 <= k < s.len() && s[k] == a;
            if k < j {
                assert(t[k] == a);
            } else {
                assert(t[k - 1] == a);
            }
        }
    }
    assert(t.to_set() =~= s.to_set().remove(s[j]));
}

/// Whether `user` is in the like list `v`.
fn list_position(v: &Vec<String>, user: &String) -> (r: Option<usize>)
    ensures
        match r {
            Some(j) => j < v@.len() && v@[j as int]@ == user@,
            None => !names(v@).contains(user@),
        },
{
    let mut j: usize = 0;
    while j < v.len()
        invariant
            j <= v@.len(),
            forall|k: int| 0 <= k < j ==> v@[k]@ != user@,
        decreases v@.len() - j,
    {
        if v[j] == *user {
            return Some(j);
        }
        j += 1;
    }
    proof {
        assert forall|k: int| 0 <= k < names(v@).len() implies names(v@)[k] != user@ by {}
    }
    None
}

pub struct MemeFiContract {
    memes: Vec<MemeNFT>,
    likes: Vec<Option<Vec<String>>>,
    comments: Vec<Vec<Comment>>,
    stat_owners: Vec<String>,
    stat_values: Vec<UserStats>,
}

impl View for MemeFiContract {
    type V = LedgerModel;

    closed spec fn view(&self) -> LedgerModel {
        LedgerModel {
            records: self.memes@.map_values(|m: MemeNFT| m@),
            likes: self.likes@.map_values(|o: Option<Vec<String>>| like_set(o)),
            comments: self.comments@.map_values(|v: Vec<Comment>| log_view(v)),
            stats: Map::new(
                |u: Seq<char>| has_slot(self.stat_owners@, u),
                |u: Seq<char>| self.stat_values@[slot_of(self.stat_owners@, u)],
            ),
        }
    }
}

/// The text `s` without its leading and trailing whitespace, as `str::trim`
/// computes it.
pub uninterp spec fn trim_of(s: Seq<char>) -> Seq<char>;

/// Relies on `str::trim`: its result depends on the text alone.
#[verifier::external_body]
fn trim_text(s: &String) -> (r: String)
    ensures
        r@ == trim_of(s@),
{
    s.trim().to_string()
}

impl MemeFiContract {
    /// The facts of the stored form that the model does not show: the like
    /// lists hold no identity twice, and no identity has two counter slots.
    pub closed spec fn shape_wf(&self) -> bool {
        &&& self.likes@.len() == self.memes@.len()
        &&& self.comments@.len() == self.memes@.len()
        &&& self.stat_values@.len() == self.stat_owners@.len()
        &&& forall|i: int|
            0 <= i < self.likes@.len() && (#[trigger] self.likes@[i]) is Some
                ==> names(self.likes@[i]->0@).no_duplicates()
        &&& forall|j: int, k: int|
            0 <= j < self.stat_owners@.len() && 0 <= k < self.stat_owners@.len() && j != k
                ==> self.stat_owners@[j]@ != self.stat_owners@[k]@
    }

    /// Well-formedness: the stored form is sound and its model consistent.
    pub open spec fn wf(&self) -> bool {
        self.shape_wf() && self@.consistent()
    }

    /// An empty ledger.
    pub fn new() -> (r: MemeFiContract)
        ensures
            r.wf(),
            r@ == LedgerModel::empty(),
    {
        let r = MemeFiContract {
            memes: Vec::new(),
            likes: Vec::new(),
            comments: Vec::new(),
            stat_owners: Vec::new(),
            stat_values: Vec::new(),
        };
        proof {
            assert(r@.records =~= Seq::<MemeView>::empty());
            assert(r@.likes =~= Seq::<Option<Set<Seq<char>>>>::empty());
            assert(r@.comments =~= Seq::<Seq<CommentView>>::empty());
            assert(r@.stats =~= Map::<Seq<char>, UserStats>::empty());
        }
        r
    }

    /// Constructs the ledger once: where the host reports that it already
    /// holds one, construction fails.
    pub fn init(state_exists: bool) -> (r: Result<MemeFiContract, LedgerError>)
        ensures
            state_exists <==> r == Err::<MemeFiContract, LedgerError>(LedgerError::AlreadyInitialized),
            r matches Ok(c) ==> c.wf() && c@ == LedgerModel::empty(),
    {
        if state_exists {
            Err(LedgerError::AlreadyInitialized)
        } else {
            Ok(MemeFiContract::new())
        }
    }

    /// The registry slot of `id`.
    fn find_meme(&self, id: &String) -> (r: Option<usize>)
        requires
            self.wf(),
        ensures
            match r {
                Some(i) => i < self.memes@.len() && self@.find(id@) == Some(i as int),
                None => self@.find(id@) is None,
            },
    {
        let mut i: usize = 0;
        while i < self.memes.len()
            invariant
                i <= self.memes@.len(),
                self.wf(),
                forall|j: int| 0 <= j < i ==> self.memes@[j].id@ != id@,
            decreases self.memes@.len() - i,
        {
            if self.memes[i].id == *id {
                proof {
                    assert(self@.records[i as int].id == id@);
                    assert(self@.has_id(id@));
                }
                return Some(i);
            }
            i += 1;
        }
        proof {
            assert(!self@.has_id(id@)) by {
                assert forall|j: int| 0 <= j < self@.records.len() implies self@.records[j].id
                    != id@ by {
                    assert(self@.records[j] == self.memes@[j]@);
                }
            }
        }
        None
    }

    /// The counter slot of `user`.
    fn find_stats(&self, user: &String) -> (r: Option<usize>)
        requires
            self.shape_wf(),
        ensures
            match r {
                Some(j) => j < self.stat_owners@.len() && self.stat_owners@[j as int]@ == user@,
                None => !has_slot(self.stat_owners@, user@),
            },
    {
        let mut j: usize = 0;
        while j < self.stat_owners.len()
            invariant
                j <= self.stat_owners@.len(),
                forall|k: int| 0 <= k < j ==> self.stat_owners@[k]@ != user@,
            decreases self.stat_owners@.len() - j,
        {
            if self.stat_owners[j] == *user {
                return Some(j);
            }
            j += 1;
        }
        None
    }

    /// The counters of `user`, zero where none are stored.
    pub fn get_user_stats(&self, user_id: &String) -> (r: UserStats)
        requires
            self.wf(),
        ensures
            r == self@.stats_of(user_id@),
    {
        match self.find_stats(user_id) {
            Some(j) => {
                proof {
                    let c = slot_of(self.stat_owners@, user_id@);
                    assert(has_slot(self.stat_owners@, user_id@));
                    assert(c == j);
                    assert(self@.stats.dom().contains(user_id@));
                }
                self.stat_values[j]
            },
            None => {
                proof {
                    assert(!self@.stats.dom().contains(user_id@));
                }
                UserStats::zero()
            },
        }
    }

    /// Stores `st` as the counters of `user`; nothing else changes.
    fn put_stats(&mut self, user: String, st: UserStats)
        requires
            old(self).shape_wf(),
        ensures
            final(self).shape_wf(),
            final(self).memes == old(self).memes,
            final(self).likes == old(self).likes,
            final(self).comments == old(self).comments,
            final(self)@.stats == old(self)@.stats.insert(user@, st),
    {
        match self.find_stats(&user) {
            Some(j) => {
                self.stat_values.set(j, st);
                proof {
                    let m1 = old(self)@.stats.insert(user@, st);
                    let m2 = self@.stats;
                    assert forall|k: Seq<char>| m2.dom().contains(k) implies m2[k] == m1[k] by {
                        if k == user@ {
                            assert(slot_of(self.stat_owners@, k) == j);
                        }
                    }
                    assert(m2 =~= m1);
                }
            },
            None => {
                let ghost old_owners = self.stat_owners@;
                let ghost n = old_owners.len() as int;
                self.stat_owners.push(user);
                self.stat_values.push(st);
                proof {
                    let m1 = old(self)@.stats.insert(self.stat_owners@[n]@, st);
                    let m2 = self@.stats;
                    assert forall|k: Seq<char>| m1.dom().contains(k) implies m2.dom().contains(k) by {
                        if k != self.stat_owners@[n]@ {
                            let c = slot_of(old_owners, k);
                            assert(self.stat_owners@[c]@ == k);
                        }
                    }
                    assert forall|k: Seq<char>| m2.dom().contains(k) implies m1.dom().contains(k)
                        && m2[k] == m1[k] by {
                        let c = slot_of(self.stat_owners@, k);
                        if k != self.stat_owners@[n]@ {
                            assert(old_owners[c]@ == k);
                            assert(has_slot(old_owners, k));
                            let c0 = slot_of(old_owners, k);
                            assert(self.stat_owners@[c0]@ == k);
                        }
                    }
                    assert(m2 =~= m1);
                }
            },
        }
    }
    /// Mints `id` with `caller` as its owner and creator.
    pub fn mint_meme(
        &mut self,
        id: String,
        media_url: String,
        title: String,
        description: String,
        royalty: u8,
        caller: String,
    ) -> (r: Result<(), LedgerError>)
        requires
            old(self).wf(),
        ensures
            final(self).wf(),
            (final(self)@, r) == old(self)@.mint(
                id@,
                media_url@,
                title@,
                description@,
                royalty,
                caller@,
            ),
    {
        if self.find_meme(&id).is_some() {
            return Err(LedgerError::DuplicateIdentifier);
        }
        if royalty > 100 {
            return Err(LedgerError::InvalidRoyalty);
        }
        proof {
            lemma_mint_consistent(self@, id@, media_url@, title@, description@, royalty, caller@);
        }
        let ghost before = self@;
        let meme = MemeNFT {
            id,
            owner_id: caller.clone(),
            creator_id: caller,
            media_url,
            title,
            description,
            royalty,
            likes_count: 0,
            comments_count: 0,
            last_like_timestamp: 0,
        };
        self.memes.push(meme);
        self.likes.push(None);
        self.comments.push(Vec::new());
        proof {
            let after = before.mint(id@, media_url@, title@, description@, royalty, caller@).0;
            assert(self@.records =~= after.records);
            assert(self@.likes =~= after.likes);
            let n = before.records.len() as int;
            assert(log_view(self.comments@[n]) =~= Seq::<CommentView>::empty());
            assert(self@.comments =~= after.comments);
            assert(self@.stats =~= after.stats);
        }
        Ok(())
    }

    /// The record of `id`, if it was minted.
    pub fn get_meme(&self, id: String) -> (r: Option<MemeNFT>)
        requires
            self.wf(),
        ensures
            match r {
                Some(m) => self@.get(id@) == Some(m@),
                None => self@.get(id@) is None,
            },
    {
        match self.find_meme(&id) {
            Some(i) => Some(self.memes[i].duplicate()),
            None => None,
        }
    }

    /// How many memes were minted.
    pub fn get_memes_count(&self) -> (r: u64)
        requires
            self.wf(),
        ensures
            r == self@.count(),
    {
        self.memes.len() as u64
    }
    /// `caller` likes `meme_id` at logical time `now`.
    pub fn like_meme(&mut self, meme_id: String, caller: String, now: u64) -> (r: Result<
        (),
        LedgerError,
    >)
        requires
            old(self).wf(),
            old(self)@.like_fits(meme_id@),
        ensures
            final(self).wf(),
            (final(self)@, r) == old(self)@.like(meme_id@, caller@, now),
    {
        let i = match self.find_meme(&meme_id) {
            Some(i) => i,
            None => return Err(LedgerError::RecordNotFound),
        };
        let pos = match &self.likes[i] {
            Some(v) => list_position(v, &caller),
            None => None,
        };
        if pos.is_some() {
            proof {
                assert(names(self.likes@[i as int]->0@)[pos->0 as int] == caller@);
            }
            return Err(LedgerError::AlreadyLiked);
        }
        let ghost before = self@;
        proof {
            lemma_like_consistent(before, meme_id@, caller@, now);
            lemma_owned_total_bounds(before.records, i as int, before.records[i as int].owner_id, true);
            assert(before.likers(i as int) == match self.likes@[i as int] {
                Some(v) => names(v@).to_set(),
                None => Set::empty(),
            });
        }
        let owner = self.memes[i].owner_id.clone();
        let st = self.get_user_stats(&owner);
        let mut meme = self.memes[i].duplicate();
        meme.likes_count = meme.likes_count + 1;
        meme.last_like_timestamp = now;
        self.memes.set(i, meme);
        let mut slot: Option<Vec<String>> = None;
        self.likes.set_and_swap(i, &mut slot);
        let mut list = match slot {
            Some(v) => v,
            None => Vec::new(),
        };
        let ghost old_list = list@;
        proof {
            assert(names(old_list).to_set() =~= before.likers(i as int));
        }
        list.push(caller);
        proof {
            assert(names(list@) =~= names(old_list).push(list@.last()@));
            names(old_list).lemma_push_to_set_commute(list@.last()@);
        }
        self.likes.set(i, Some(list));
        let st2 = UserStats {
            total_likes: st.total_likes + 1,
            total_comments: st.total_comments,
            total_earnings: st.total_earnings,
        };
        self.put_stats(owner, st2);
        proof {
            let after = before.like(meme_id@, caller@, now).0;
            assert(self@.records =~= after.records);
            assert(self@.likes =~= after.likes);
            assert(self@.comments =~= after.comments);
            assert(self@.stats =~= after.stats);
            assert forall|k: int|
                0 <= k < self.likes@.len() && (#[trigger] self.likes@[k]) is Some implies names(
                    self.likes@[k]->0@,
                ).no_duplicates() by {
                if k != i {
                    assert(self.likes@[k] == old(self).likes@[k]);
                }
            }
        }
        Ok(())
    }

    /// `caller` takes back its like of `meme_id`.
    pub fn unlike_meme(&mut self, meme_id: String, caller: String) -> (r: Result<(), LedgerError>)
        requires
            old(self).wf(),
        ensures
            final(self).wf(),
            (final(self)@, r) == old(self)@.unlike(meme_id@, caller@),
    {
        let i = match self.find_meme(&meme_id) {
            Some(i) => i,
            None => return Err(LedgerError::RecordNotFound),
        };
        let pos = match &self.likes[i] {
            Some(v) => list_position(v, &caller),
            None => return Err(LedgerError::NoLikeHistory),
        };
        let j = match pos {
            Some(j) => j,
            None => return Err(LedgerError::NotLiked),
        };
        let ghost before = self@;
        proof {
            lemma_unlike_consistent(before, meme_id@, caller@);
            assert(names(self.likes@[i as int]->0@)[j as int] == caller@);
        }
        let owner = self.memes[i].owner_id.clone();
        let st = self.get_user_stats(&owner);
        let mut meme = self.memes[i].duplicate();
        meme.likes_count = meme.likes_count.saturating_sub(1);
        self.memes.set(i, meme);
        let mut slot: Option<Vec<String>> = None;
        self.likes.set_and_swap(i, &mut slot);
        let mut list = match slot {
            Some(v) => v,
            None => Vec::new(),
        };
        let ghost old_list = list@;
        list.remove(j);
        proof {
            assert(names(list@) =~= names(old_list).remove(j as int));
            lemma_remove_to_set(names(old_list), j as int);
        }
        self.likes.set(i, Some(list));
        let st2 = UserStats {
            total_likes: st.total_likes.saturating_sub(1),
            total_comments: st.total_comments,
            total_earnings: st.total_earnings,
        };
        self.put_stats(owner, st2);
        proof {
            let after = before.unlike(meme_id@, caller@).0;
            assert(self@.records =~= after.records);
            assert(self@.likes =~= after.likes);
            assert(self@.comments =~= after.comments);
            assert(self@.stats =~= after.stats);
            assert forall|k: int|
                0 <= k < self.likes@.len() && (#[trigger] self.likes@[k]) is Some implies names(
                    self.likes@[k]->0@,
                ).no_duplicates() by {
                if k != i {
                    assert(self.likes@[k] == old(self).likes@[k]);
                }
            }
        }
        Ok(())
    }
    /// `caller` comments `text` on `meme_id` at logical time `now`; the text
    /// is stored without its surrounding whitespace.
    pub fn comment_meme(&mut self, meme_id: String, caller: String, text: String, now: u64) -> (r:
        Result<(), LedgerError>)
        requires
            old(self).wf(),
            old(self)@.comment_fits(meme_id@),
        ensures
            final(self).wf(),
            (final(self)@, r) == old(self)@.comment(meme_id@, caller@, text@, trim_of(text@), now),
    {
        let trimmed = trim_text(&text);
        self.comment_trimmed(meme_id, caller, &text, trimmed, now)
    }

    /// `caller` comments on `meme_id` at logical time `now`, where `text` is the
    /// text as given and `trimmed` the same text without surrounding whitespace.
    pub fn comment_trimmed(
        &mut self,
        meme_id: String,
        caller: String,
        text: &String,
        trimmed: String,
        now: u64,
    ) -> (r: Result<(), LedgerError>)
        requires
            old(self).wf(),
            old(self)@.comment_fits(meme_id@),
        ensures
            final(self).wf(),
            (final(self)@, r) == old(self)@.comment(meme_id@, caller@, text@, trimmed@, now),
    {
        let i = match self.find_meme(&meme_id) {
            Some(i) => i,
            None => return Err(LedgerError::RecordNotFound),
        };
        if trimmed.unicode_len() == 0 {
            return Err(LedgerError::EmptyComment);
        }
        if text.unicode_len() > MAX_COMMENT_CHARS {
            return Err(LedgerError::CommentTooLong);
        }
        let ghost before = self@;
        proof {
            lemma_comment_consistent(before, meme_id@, caller@, text@, trimmed@, now);
            lemma_owned_total_bounds(before.records, i as int, before.records[i as int].owner_id, false);
        }
        let owner = self.memes[i].owner_id.clone();
        let st = self.get_user_stats(&owner);
        let mut meme = self.memes[i].duplicate();
        meme.comments_count = meme.comments_count + 1;
        self.memes.set(i, meme);
        let mut log: Vec<Comment> = Vec::new();
        self.comments.set_and_swap(i, &mut log);
        let ghost old_log = log@;
        log.push(Comment { user_id: caller, text: trimmed, timestamp: now });
        proof {
            assert(log_view(log) =~= log_view_seq(old_log).push(log@.last()@));
        }
        self.comments.set(i, log);
        let st2 = UserStats {
            total_likes: st.total_likes,
            total_comments: st.total_comments + 1,
            total_earnings: st.total_earnings,
        };
        self.put_stats(owner, st2);
        proof {
            let after = before.comment(meme_id@, caller@, text@, trimmed@, now).0;
            assert(self@.records =~= after.records);
            assert(self@.likes =~= after.likes);
            assert(self@.comments =~= after.comments);
            assert(self@.stats =~= after.stats);
        }
        Ok(())
    }

    /// The comments on `meme_id` in the order they were made.
    pub fn get_comments(&self, meme_id: String) -> (r: Vec<Comment>)
        requires
            self.wf(),
        ensures
            log_view(r) == self@.comment_log(meme_id@),
    {
        let mut out: Vec<Comment> = Vec::new();
        let i = match self.find_meme(&meme_id) {
            Some(i) => i,
            None => {
                proof {
                    assert(log_view(out) =~= Seq::<CommentView>::empty());
                }
                return out;
            },
        };
        let log = &self.comments[i];
        let mut k: usize = 0;
        while k < log.len()
            invariant
                k <= log@.len(),
                log_view(out) =~= log_view(*log).take(k as int),
            decreases log@.len() - k,
        {
            let ghost prev = out@;
            out.push(log[k].duplicate());
            proof {
                assert(log_view(out) =~= log_view_seq(prev).push(log@[k as int]@));
                assert(log_view(*log).take(k + 1) =~= log_view(*log).take(k as int).push(
                    log@[k as int]@,
                ));
            }
            k += 1;
        }
        proof {
            assert(log_view(*log).take(k as int) =~= log_view(*log));
        }
        out
    }

    /// How many identities like `meme_id`.
    pub fn get_likes(&self, meme_id: String) -> (r: u32)
        requires
            self.wf(),
        ensures
            r == self@.like_count(meme_id@),
    {
        let i = match self.find_meme(&meme_id) {
            Some(i) => i,
            None => return 0,
        };
        match &self.likes[i] {
            Some(v) => {
                proof {
                    assert(self.likes@[i as int] is Some);
                    assert(self.likes@[i as int]->0 == *v);
                    names(v@).unique_seq_to_set();
                    assert(self@.likers(i as int) == names(v@).to_set());
                }
                v.len() as u32
            },
            None => 0,
        }
    }

    /// The memes whose current owner is `user_id`, in minting order.
    pub fn get_user_memes(&self, user_id: String) -> (r: Vec<MemeNFT>)
        requires
            self.wf(),
        ensures
            r@.map_values(|m: MemeNFT| m@) == self@.by_owner(user_id@),
    {
        let mut out: Vec<MemeNFT> = Vec::new();
        let mut i: usize = 0;
        while i < self.memes.len()
            invariant
                i <= self.memes@.len(),
                out@.map_values(|m: MemeNFT| m@) =~= owned_by(self@.records.take(i as int), user_id@),
            decreases self.memes@.len() - i,
        {
            proof {
                assert(self@.records.take(i + 1).drop_last() =~= self@.records.take(i as int));
            }
            if self.memes[i].owner_id == user_id {
                out.push(self.memes[i].duplicate());
            }
            i += 1;
        }
        proof {
            assert(self@.records.take(i as int) =~= self@.records);
        }
        out
    }

    /// One page of the registry: the records in slots `from_index ..` (0 by
    /// default), at most `limit` of them (`DEFAULT_PAGE` by default, never more
    /// than `MAX_PAGE`).
    pub fn get_all_memes(&self, from_index: Option<u64>, limit: Option<u64>) -> (r: Vec<MemeNFT>)
        requires
            self.wf(),
        ensures
            r@.map_values(|m: MemeNFT| m@) == self@.page(
                or_default(from_index, 0) as int,
                or_default(limit, DEFAULT_PAGE) as int,
            ),
    {
        let from: u64 = match from_index {
            Some(f) => f,
            None => 0,
        };
        let mut lim: u64 = match limit {
            Some(l) => l,
            None => DEFAULT_PAGE,
        };
        if lim > MAX_PAGE {
            lim = MAX_PAGE;
        }
        let mut out: Vec<MemeNFT> = Vec::new();
        let len = self.memes.len() as u64;
        if from >= len {
            proof {
                assert(out@.map_values(|m: MemeNFT| m@) =~= Seq::<MemeView>::empty());
            }
            return out;
        }
        let end: u64 = if len - from > lim {
            from + lim
        } else {
            len
        };
        let end: usize = end as usize;
        let mut i: usize = from as usize;
        while i < end
            invariant
                from <= i <= end <= self.memes@.len(),
                out@.map_values(|m: MemeNFT| m@) =~= self@.records.subrange(from as int, i as int),
            decreases end - i,
        {
            let ghost prev = out@;
            out.push(self.memes[i].duplicate());
            proof {
                assert(out@.map_values(|m: MemeNFT| m@) =~= prev.map_values(|m: MemeNFT| m@).push(
                    self@.records[i as int],
                ));
                assert(self@.records.subrange(from as int, i + 1) =~= self@.records.subrange(
                    from as int,
                    i as int,
                ).push(self@.records[i as int]));
            }
            i += 1;
        }
        out
    }
}

/// The value an optional argument stands for.
pub open spec fn or_default(o: Option<u64>, d: u64) -> u64 {
    match o {
        Some(v) => v,
        None => d,
    }
}

} // verus!
