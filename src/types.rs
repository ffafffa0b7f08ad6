use vstd::prelude::*;

verus! {

/// A minted meme as it is stored and handed out.
#[derive(Clone, Debug)]
pub struct MemeNFT {
    pub id: String,
    pub owner_id: String,
    pub creator_id: String,
    pub media_url: String,
    pub title: String,
    pub description: String,
    pub royalty: u8,
    pub likes_count: u32,
    pub comments_count: u32,
    pub last_like_timestamp: u64,
}

/// The mathematical value of a [`MemeNFT`]: its strings as character sequences.
pub struct MemeView {
    pub id: Seq<char>,
    pub owner_id: Seq<char>,
    pub creator_id: Seq<char>,
    pub media_url: Seq<char>,
    pub title: Seq<char>,
    pub description: Seq<char>,
    pub royalty: u8,
    pub likes_count: u32,
    pub comments_count: u32,
    pub last_like_timestamp: u64,
}

impl View for MemeNFT {
    type V = MemeView;

    open spec fn view(&self) -> MemeView {
        MemeView {
            id: self.id@,
            owner_id: self.owner_id@,
            creator_id: self.creator_id@,
            media_url: self.media_url@,
            title: self.title@,
            description: self.description@,
            royalty: self.royalty,
            likes_count: self.likes_count,
            comments_count: self.comments_count,
            last_like_timestamp: self.last_like_timestamp,
        }
    }
}

impl MemeNFT {
    /// A field-by-field copy whose value is known to equal `self`.
    pub fn duplicate(&self) -> (r: MemeNFT)
        ensures
            r@ == self@,
    {
        MemeNFT {
            id: self.id.clone(),
            owner_id: self.owner_id.clone(),
            creator_id: self.creator_id.clone(),
            media_url: self.media_url.clone(),
            title: self.title.clone(),
            description: self.description.clone(),
            royalty: self.royalty,
            likes_count: self.likes_count,
            comments_count: self.comments_count,
            last_like_timestamp: self.last_like_timestamp,
        }
    }
}

/// A comment left on a meme: its author, its trimmed text and when it was made.
#[derive(Clone, Debug)]
pub struct Comment {
    pub user_id: String,
    pub text: String,
    pub timestamp: u64,
}

/// The mathematical value of a [`Comment`].
pub struct CommentView {
    pub user_id: Seq<char>,
    pub text: Seq<char>,
    pub timestamp: u64,
}

impl View for Comment {
    type V = CommentView;

    open spec fn view(&self) -> CommentView {
        CommentView { user_id: self.user_id@, text: self.text@, timestamp: self.timestamp }
    }
}

impl Comment {
    /// A field-by-field copy whose value is known to equal `self`.
    pub fn duplicate(&self) -> (r: Comment)
        ensures
            r@ == self@,
    {
        Comment { user_id: self.user_id.clone(), text: self.text.clone(), timestamp: self.timestamp }
    }
}

/// Aggregate counters of an identity, over the memes it owns.
#[derive(Clone, Copy, Debug, PartialEq, Eq, Structural)]
pub struct UserStats {
    pub total_likes: u32,
    pub total_comments: u32,
    pub total_earnings: u128,
}

impl UserStats {
    /// The record of an identity with no activity yet.
    pub open spec fn spec_zero() -> UserStats {
        UserStats { total_likes: 0, total_comments: 0, total_earnings: 0 }
    }

    pub fn zero() -> (r: UserStats)
        ensures
            r == UserStats::spec_zero(),
    {
        UserStats { total_likes: 0, total_comments: 0, total_earnings: 0 }
    }
}

impl Default for UserStats {
    fn default() -> (r: UserStats)
        ensures
            r == UserStats::spec_zero(),
    {
        UserStats::zero()
    }
}

/// Why a call on the ledger was rejected. A rejected call changes nothing.
#[derive(Clone, Copy, Debug, PartialEq, Eq, Structural)]
pub enum LedgerError {
    AlreadyInitialized,
    DuplicateIdentifier,
    InvalidRoyalty,
    RecordNotFound,
    AlreadyLiked,
    NotLiked,
    NoLikeHistory,
    EmptyComment,
    CommentTooLong,
}

} // verus!
