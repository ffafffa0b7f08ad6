use vstd::prelude::*;

use crate::types::{CommentView, LedgerError, MemeView, UserStats};

verus! {

/// The most records one page of `get_all_memes` holds.
pub const MAX_PAGE: u64 = 100;

/// The page size when the caller names none.
pub const DEFAULT_PAGE: u64 = 50;

/// The most characters a comment may have before it is trimmed.
pub const MAX_COMMENT_CHARS: usize = 500;

/// The abstract state of the ledger.
///
/// `records` is the registry of minted memes in minting order; `likes[i]` is the
/// set of identities that like `records[i]` (`None` until its first like);
/// `comments[i]` is its comment log; `stats` holds the counters of each identity
/// that has a stored record.
pub struct LedgerModel {
    pub records: Seq<MemeView>,
    pub likes: Seq<Option<Set<Seq<char>>>>,
    pub comments: Seq<Seq<CommentView>>,
    pub stats: Map<Seq<char>, UserStats>,
}

/// The likes (`of_likes`) or comments (`!of_likes`) that one record counts.
pub open spec fn counted(m: MemeView, of_likes: bool) -> int {
    if of_likes {
        m.likes_count as int
    } else {
        m.comments_count as int
    }
}

/// The sum of the likes or comments counted over the records owned by `owner`.
pub open spec fn owned_total(records: Seq<MemeView>, owner: Seq<char>, of_likes: bool) -> int
    decreases records.len(),
{
    if records.len() == 0 {
        0
    } else {
        let last = records.last();
        owned_total(records.drop_last(), owner, of_likes) + share(last, owner, of_likes)
    }
}

/// What one record adds to the total of `owner`.
pub open spec fn share(m: MemeView, owner: Seq<char>, of_likes: bool) -> int {
    if m.owner_id == owner {
        counted(m, of_likes)
    } else {
        0
    }
}

/// The records owned by `owner`, in registry order.
pub open spec fn owned_by(records: Seq<MemeView>, owner: Seq<char>) -> Seq<MemeView>
    decreases records.len(),
{
    if records.len() == 0 {
        Seq::empty()
    } else {
        let prev = owned_by(records.drop_last(), owner);
        if records.last().owner_id == owner {
            prev.push(records.last())
        } else {
            prev
        }
    }
}

/// `x - 1`, or 0 where `x` is 0.
pub open spec fn dec_sat(x: u32) -> u32 {
    if x == 0 {
        0
    } else {
        (x - 1) as u32
    }
}

impl LedgerModel {
    /// The ledger before any call.
    pub open spec fn empty() -> LedgerModel {
        LedgerModel {
            records: Seq::empty(),
            likes: Seq::empty(),
            comments: Seq::empty(),
            stats: Map::empty(),
        }
    }

    pub open spec fn has_id(self, id: Seq<char>) -> bool {
        exists|i: int| 0 <= i < self.records.len() && self.records[i].id == id
    }

    /// The registry slot of `id`, if it was minted.
    pub open spec fn find(self, id: Seq<char>) -> Option<int> {
        if self.has_id(id) {
            Some(choose|i: int| 0 <= i < self.records.len() && self.records[i].id == id)
        } else {
            None
        }
    }

    /// The identities that like the record in slot `i`.
    pub open spec fn likers(self, i: int) -> Set<Seq<char>> {
        match self.likes[i] {
            Some(s) => s,
            None => Set::empty(),
        }
    }

    /// The counters of `user`; zero where none are stored.
    pub open spec fn stats_of(self, user: Seq<char>) -> UserStats {
        if self.stats.dom().contains(user) {
            self.stats[user]
        } else {
            UserStats::spec_zero()
        }
    }

    pub open spec fn get(self, id: Seq<char>) -> Option<MemeView> {
        match self.find(id) {
            Some(i) => Some(self.records[i]),
            None => None,
        }
    }

    pub open spec fn count(self) -> nat {
        self.records.len()
    }

    /// The records whose current owner is `owner`, in registry order.
    pub open spec fn by_owner(self, owner: Seq<char>) -> Seq<MemeView> {
        owned_by(self.records, owner)
    }

    /// How many identities like `id`: 0 for an unknown id or one never liked.
    pub open spec fn like_count(self, id: Seq<char>) -> nat {
        match self.find(id) {
            Some(i) => self.likers(i).len(),
            None => 0,
        }
    }

    /// The comments on `id` in the order they were made; empty for an unknown id.
    pub open spec fn comment_log(self, id: Seq<char>) -> Seq<CommentView> {
        match self.find(id) {
            Some(i) => self.comments[i],
            None => Seq::empty(),
        }
    }

    /// The page of records in registry slots `from .. from + min(limit, MAX_PAGE)`.
    pub open spec fn page(self, from: int, limit: int) -> Seq<MemeView> {
        let lim = if limit < MAX_PAGE {
            limit
        } else {
            MAX_PAGE as int
        };
        if from >= self.records.len() {
            Seq::empty()
        } else if from + lim < self.records.len() {
            self.records.subrange(from, from + lim)
        } else {
            self.records.subrange(from, self.records.len() as int)
        }
    }

    /// Minting `id` on behalf of `creator`.
    pub open spec fn mint(
        self,
        id: Seq<char>,
        media_url: Seq<char>,
        title: Seq<char>,
        description: Seq<char>,
        royalty: u8,
        creator: Seq<char>,
    ) -> (LedgerModel, Result<(), LedgerError>) {
        if self.has_id(id) {
            (self, Err(LedgerError::DuplicateIdentifier))
        } else if royalty > 100 {
            (self, Err(LedgerError::InvalidRoyalty))
        } else {
            let rec = MemeView {
                id,
                owner_id: creator,
                creator_id: creator,
                media_url,
                title,
                description,
                royalty,
                likes_count: 0,
                comments_count: 0,
                last_like_timestamp: 0,
            };
            (
                LedgerModel {
                    records: self.records.push(rec),
                    likes: self.likes.push(None),
                    comments: self.comments.push(Seq::empty()),
                    stats: self.stats,
                },
                Ok(()),
            )
        }
    }

    /// Whether a like on `id` keeps its owner's like total within `u32`.
    pub open spec fn like_fits(self, id: Seq<char>) -> bool {
        match self.find(id) {
            Some(i) => self.stats_of(self.records[i].owner_id).total_likes < u32::MAX,
            None => true,
        }
    }

    /// Whether a comment on `id` keeps its owner's comment total within `u32`.
    pub open spec fn comment_fits(self, id: Seq<char>) -> bool {
        match self.find(id) {
            Some(i) => self.stats_of(self.records[i].owner_id).total_comments < u32::MAX,
            None => true,
        }
    }

    /// `user` likes `id` at logical time `now`.
    pub open spec fn like(self, id: Seq<char>, user: Seq<char>, now: u64) -> (
        LedgerModel,
        Result<(), LedgerError>,
    ) {
        match self.find(id) {
            None => (self, Err(LedgerError::RecordNotFound)),
            Some(i) => if self.likers(i).contains(user) {
                (self, Err(LedgerError::AlreadyLiked))
            } else {
                let r = self.records[i];
                let st = self.stats_of(r.owner_id);
                let r2 = MemeView {
                    likes_count: (r.likes_count + 1) as u32,
                    last_like_timestamp: now,
                    ..r
                };
                let st2 = UserStats { total_likes: (st.total_likes + 1) as u32, ..st };
                (
                    LedgerModel {
                        records: self.records.update(i, r2),
                        likes: self.likes.update(i, Some(self.likers(i).insert(user))),
                        comments: self.comments,
                        stats: self.stats.insert(r.owner_id, st2),
                    },
                    Ok(()),
                )
            },
        }
    }

    /// `user` takes back a like of `id`.
    pub open spec fn unlike(self, id: Seq<char>, user: Seq<char>) -> (
        LedgerModel,
        Result<(), LedgerError>,
    ) {
        match self.find(id) {
            None => (self, Err(LedgerError::RecordNotFound)),
            Some(i) => if self.likes[i] is None {
                (self, Err(LedgerError::NoLikeHistory))
            } else if !self.likers(i).contains(user) {
                (self, Err(LedgerError::NotLiked))
            } else {
                let r = self.records[i];
                let st = self.stats_of(r.owner_id);
                let r2 = MemeView { likes_count: dec_sat(r.likes_count), ..r };
                let st2 = UserStats { total_likes: dec_sat(st.total_likes), ..st };
                (
                    LedgerModel {
                        records: self.records.update(i, r2),
                        likes: self.likes.update(i, Some(self.likers(i).remove(user))),
                        comments: self.comments,
                        stats: self.stats.insert(r.owner_id, st2),
                    },
                    Ok(()),
                )
            },
        }
    }

    /// `user` comments on `id` at logical time `now`; `raw` is the text as given
    /// and `trimmed` the same text without its surrounding whitespace.
    pub open spec fn comment(
        self,
        id: Seq<char>,
        user: Seq<char>,
        raw: Seq<char>,
        trimmed: Seq<char>,
        now: u64,
    ) -> (LedgerModel, Result<(), LedgerError>) {
        match self.find(id) {
            None => (self, Err(LedgerError::RecordNotFound)),
            Some(i) => if trimmed.len() == 0 {
                (self, Err(LedgerError::EmptyComment))
            } else if raw.len() > MAX_COMMENT_CHARS {
                (self, Err(LedgerError::CommentTooLong))
            } else {
                let r = self.records[i];
                let st = self.stats_of(r.owner_id);
                let r2 = MemeView { comments_count: (r.comments_count + 1) as u32, ..r };
                let st2 = UserStats { total_comments: (st.total_comments + 1) as u32, ..st };
                let c = CommentView { user_id: user, text: trimmed, timestamp: now };
                (
                    LedgerModel {
                        records: self.records.update(i, r2),
                        likes: self.likes,
                        comments: self.comments.update(i, self.comments[i].push(c)),
                        stats: self.stats.insert(r.owner_id, st2),
                    },
                    Ok(()),
                )
            },
        }
    }

    /// The invariant of every reachable state: identifiers are unique, each
    /// record's counters agree with its like set and comment log, no stored
    /// comment is empty, and each identity's totals agree with the records it
    /// owns.
    pub open spec fn consistent(self) -> bool {
        &&& self.likes.len() == self.records.len()
        &&& self.comments.len() == self.records.len()
        &&& forall|i: int, j: int|
            0 <= i < self.records.len() && 0 <= j < self.records.len() && i != j
                ==> self.records[i].id != self.records[j].id
        &&& forall|i: int|
            0 <= i < self.records.len() ==> {
                &&& self.likers(i).finite()
                &&& self.records[i].likes_count == self.likers(i).len()
                &&& self.records[i].comments_count == self.comments[i].len()
            }
        &&& forall|i: int, k: int|
            0 <= i < self.records.len() && 0 <= k < self.comments[i].len() ==> (
            #[trigger] self.comments[i][k]).text.len() > 0
        &&& forall|u: Seq<char>|
            #![trigger self.stats_of(u)]
            {
                &&& self.stats_of(u).total_likes == owned_total(self.records, u, true)
                &&& self.stats_of(u).total_comments == owned_total(self.records, u, false)
            }
    }
}

/// Changing one record changes an owner's total by the difference of the
/// record's shares.
proof fn lemma_owned_total_update(
    records: Seq<MemeView>,
    i: int,
    m: MemeView,
    owner: Seq<char>,
    of_likes: bool,
)
    requires
        0 <= i < records.len(),
    ensures
        owned_total(records.update(i, m), owner, of_likes) == owned_total(records, owner, of_likes)
            - share(records[i], owner, of_likes) + share(m, owner, of_likes),
    decreases records.len(),
{
    if i == records.len() - 1 {
        assert(records.update(i, m).drop_last() =~= records.drop_last());
    } else {
        lemma_owned_total_update(records.drop_last(), i, m, owner, of_likes);
        assert(records.update(i, m).drop_last() =~= records.drop_last().update(i, m));
    }
}

/// A total is at least the share of any one record in it.
pub(crate) proof fn lemma_owned_total_bounds(records: Seq<MemeView>, i: int, owner: Seq<char>, of_likes: bool)
    requires
        0 <= i < records.len(),
    ensures
        owned_total(records, owner, of_likes) >= share(records[i], owner, of_likes),
    decreases records.len(),
{
    lemma_owned_total_nonneg(records.drop_last(), owner, of_likes);
    if i < records.len() - 1 {
        lemma_owned_total_bounds(records.drop_last(), i, owner, of_likes);
    }
}

proof fn lemma_owned_total_nonneg(records: Seq<MemeView>, owner: Seq<char>, of_likes: bool)
    ensures
        owned_total(records, owner, of_likes) >= 0,
    decreases records.len(),
{
    if records.len() > 0 {
        lemma_owned_total_nonneg(records.drop_last(), owner, of_likes);
    }
}

proof fn lemma_find(m: LedgerModel, id: Seq<char>)
    requires
        m.consistent(),
    ensures
        m.find(id) is Some <==> m.has_id(id),
        m.find(id) is Some ==> {
            let i = m.find(id)->0;
            &&& 0 <= i < m.records.len()
            &&& m.records[i].id == id
            &&& forall|j: int| 0 <= j < m.records.len() && m.records[j].id == id ==> j == i
        },
{
}

/// The state before any call is consistent.
pub proof fn lemma_empty_consistent()
    ensures
        LedgerModel::empty().consistent(),
{
}

/// Minting keeps the ledger consistent; in particular no two records ever
/// share an identifier.
pub proof fn lemma_mint_consistent(
    m: LedgerModel,
    id: Seq<char>,
    media_url: Seq<char>,
    title: Seq<char>,
    description: Seq<char>,
    royalty: u8,
    creator: Seq<char>,
)
    requires
        m.consistent(),
    ensures
        m.mint(id, media_url, title, description, royalty, creator).0.consistent(),
{
    let (m2, r) = m.mint(id, media_url, title, description, royalty, creator);
    if r is Ok {
        let n = m.records.len() as int;
        assert(m2.likers(n) == Set::<Seq<char>>::empty());
        assert forall|i: int| 0 <= i < n implies m2.likers(i) == m.likers(i) by {}
        assert forall|u: Seq<char>| #![trigger m2.stats_of(u)]
            {
                &&& m2.stats_of(u).total_likes == owned_total(m2.records, u, true)
                &&& m2.stats_of(u).total_comments == owned_total(m2.records, u, false)
            } by {
            assert(m2.records.drop_last() =~= m.records);
            assert(m.stats_of(u) == m2.stats_of(u));
        }
    }
}

/// Liking keeps the ledger consistent, wherever the owner's total fits.
pub proof fn lemma_like_consistent(m: LedgerModel, id: Seq<char>, user: Seq<char>, now: u64)
    requires
        m.consistent(),
        m.like_fits(id),
    ensures
        m.like(id, user, now).0.consistent(),
{
    lemma_find(m, id);
    let (m2, r) = m.like(id, user, now);
    if r is Ok {
        let i = m.find(id)->0;
        let owner = m.records[i].owner_id;
        lemma_owned_total_bounds(m.records, i, owner, true);
        assert(m.likers(i).insert(user).len() == m.likers(i).len() + 1);
        assert forall|j: int| 0 <= j < m.records.len() && j != i implies m2.likers(j) == m.likers(j)
            by {}
        assert(m2.likers(i) == m.likers(i).insert(user));
        assert forall|u: Seq<char>| #![trigger m2.stats_of(u)]
            {
                &&& m2.stats_of(u).total_likes == owned_total(m2.records, u, true)
                &&& m2.stats_of(u).total_comments == owned_total(m2.records, u, false)
            } by {
            lemma_owned_total_update(m.records, i, m2.records[i], u, true);
            lemma_owned_total_update(m.records, i, m2.records[i], u, false);
            assert(m.stats_of(u).total_likes == owned_total(m.records, u, true));
            assert(m.stats_of(u).total_comments == owned_total(m.records, u, false));
        }
    }
}

/// Taking back a like keeps the ledger consistent.
pub proof fn lemma_unlike_consistent(m: LedgerModel, id: Seq<char>, user: Seq<char>)
    requires
        m.consistent(),
    ensures
        m.unlike(id, user).0.consistent(),
{
    lemma_find(m, id);
    let (m2, r) = m.unlike(id, user);
    if r is Ok {
        let i = m.find(id)->0;
        let owner = m.records[i].owner_id;
        lemma_owned_total_bounds(m.records, i, owner, true);
        assert(m.likers(i).remove(user).len() == m.likers(i).len() - 1);
        assert forall|j: int| 0 <= j < m.records.len() && j != i implies m2.likers(j) == m.likers(j)
            by {}
        assert(m2.likers(i) == m.likers(i).remove(user));
        assert forall|u: Seq<char>| #![trigger m2.stats_of(u)]
            {
                &&& m2.stats_of(u).total_likes == owned_total(m2.records, u, true)
                &&& m2.stats_of(u).total_comments == owned_total(m2.records, u, false)
            } by {
            lemma_owned_total_update(m.records, i, m2.records[i], u, true);
            lemma_owned_total_update(m.records, i, m2.records[i], u, false);
            assert(m.stats_of(u).total_likes == owned_total(m.records, u, true));
            assert(m.stats_of(u).total_comments == owned_total(m.records, u, false));
        }
    }
}

/// Commenting keeps the ledger consistent, wherever the owner's total fits.
pub proof fn lemma_comment_consistent(
    m: LedgerModel,
    id: Seq<char>,
    user: Seq<char>,
    raw: Seq<char>,
    trimmed: Seq<char>,
    now: u64,
)
    requires
        m.consistent(),
        m.comment_fits(id),
    ensures
        m.comment(id, user, raw, trimmed, now).0.consistent(),
{
    lemma_find(m, id);
    let (m2, r) = m.comment(id, user, raw, trimmed, now);
    if r is Ok {
        let i = m.find(id)->0;
        let owner = m.records[i].owner_id;
        lemma_owned_total_bounds(m.records, i, owner, false);
        assert forall|j: int| 0 <= j < m.records.len() implies m2.likers(j) == m.likers(j) by {}
        assert forall|j: int, k: int| 0 <= j < m2.records.len() && 0 <= k < m2.comments[j].len()
            implies (#[trigger] m2.comments[j][k]).text.len() > 0 by {
            if j != i || k < m.comments[i].len() {
                assert(m2.comments[j][k] == m.comments[j][k]);
            } else {
                assert(m2.comments[j][k].text == trimmed);
            }
        }
        assert forall|u: Seq<char>| #![trigger m2.stats_of(u)]
            {
                &&& m2.stats_of(u).total_likes == owned_total(m2.records, u, true)
                &&& m2.stats_of(u).total_comments == owned_total(m2.records, u, false)
            } by {
            lemma_owned_total_update(m.records, i, m2.records[i], u, true);
            lemma_owned_total_update(m.records, i, m2.records[i], u, false);
            assert(m.stats_of(u).total_likes == owned_total(m.records, u, true));
            assert(m.stats_of(u).total_comments == owned_total(m.records, u, false));
        }
    }
}

/// Once `id` is minted, minting it again fails with `DuplicateIdentifier`,
/// whatever the other arguments, and leaves the ledger as it was.
pub proof fn lemma_mint_twice(
    m: LedgerModel,
    id: Seq<char>,
    media_url: Seq<char>,
    title: Seq<char>,
    description: Seq<char>,
    royalty: u8,
    creator: Seq<char>,
    media_url2: Seq<char>,
    title2: Seq<char>,
    description2: Seq<char>,
    royalty2: u8,
    creator2: Seq<char>,
)
    requires
        m.mint(id, media_url, title, description, royalty, creator).1 is Ok,
    ensures
        ({
            let m2 = m.mint(id, media_url, title, description, royalty, creator).0;
            m2.mint(id, media_url2, title2, description2, royalty2, creator2) == (
                m2,
                Err::<(), LedgerError>(LedgerError::DuplicateIdentifier),
            )
        }),
{
    let m2 = m.mint(id, media_url, title, description, royalty, creator).0;
    assert(m2.records[m.records.len() as int].id == id);
}

/// In a consistent ledger each record's like count is the size of its like set
/// and its comment count the length of its comment log, and each identity's
/// totals are the sums over the records it owns.
pub proof fn lemma_counts_agree(m: LedgerModel, id: Seq<char>, user: Seq<char>)
    requires
        m.consistent(),
    ensures
        m.get(id) matches Some(r) ==> r.likes_count == m.like_count(id) && r.comments_count
            == m.comment_log(id).len(),
        m.stats_of(user).total_likes == owned_total(m.records, user, true),
        m.stats_of(user).total_comments == owned_total(m.records, user, false),
{
    lemma_find(m, id);
}

/// A second like by the same identity, with no unlike between, fails with
/// `AlreadyLiked` and changes nothing.
pub proof fn lemma_like_twice(m: LedgerModel, id: Seq<char>, user: Seq<char>, t1: u64, t2: u64)
    requires
        m.consistent(),
        m.like_fits(id),
        m.like(id, user, t1).1 is Ok,
    ensures
        ({
            let m2 = m.like(id, user, t1).0;
            m2.like(id, user, t2) == (m2, Err::<(), LedgerError>(LedgerError::AlreadyLiked))
        }),
{
    lemma_find(m, id);
    lemma_like_consistent(m, id, user, t1);
    let m2 = m.like(id, user, t1).0;
    lemma_find(m2, id);
    let i = m.find(id)->0;
    assert(m2.records[i].id == id);
}

/// Taking back a like that the identity does not hold fails and changes
/// nothing.
pub proof fn lemma_unlike_without_like(m: LedgerModel, id: Seq<char>, user: Seq<char>)
    requires
        !(m.find(id) matches Some(i) && m.likers(i).contains(user)),
    ensures
        m.unlike(id, user).0 == m,
        m.unlike(id, user).1 is Err,
{
}

/// A page never holds more than `min(limit, MAX_PAGE)` records, and is empty
/// from a slot at or past the count.
pub proof fn lemma_page_bounds(m: LedgerModel, from: int, limit: int)
    requires
        0 <= from,
        0 <= limit,
    ensures
        m.page(from, limit).len() <= limit,
        m.page(from, limit).len() <= MAX_PAGE,
        from >= m.count() ==> m.page(from, limit).len() == 0,
{
}

/// A comment whose trimmed text is empty, or whose text as given is longer
/// than `MAX_COMMENT_CHARS`, is rejected and changes nothing, the comment
/// logs included.
pub proof fn lemma_comment_rejected(
    m: LedgerModel,
    id: Seq<char>,
    user: Seq<char>,
    raw: Seq<char>,
    trimmed: Seq<char>,
    now: u64,
)
    requires
        trimmed.len() == 0 || raw.len() > MAX_COMMENT_CHARS,
    ensures
        m.comment(id, user, raw, trimmed, now).0 == m,
        m.comment(id, user, raw, trimmed, now).1 is Err,
        m.comment(id, user, raw, trimmed, now).0.comment_log(id) == m.comment_log(id),
{
}

} // verus!
