use memefi::{LedgerError, MemeFiContract, UserStats};

fn s(x: &str) -> String {
    x.to_string()
}

fn mint(c: &mut MemeFiContract, id: &str, owner: &str) -> Result<(), LedgerError> {
    c.mint_meme(s(id), s("https://img/x.png"), s("title"), s("desc"), 10, s(owner))
}

#[test]
fn scenario_mint_like_unlike_comment() {
    let mut c = MemeFiContract::new();
    assert_eq!(mint(&mut c, "m1", "A"), Ok(()));
    let m = c.get_meme(s("m1")).unwrap();
    assert_eq!(m.likes_count, 0);
    assert_eq!(m.comments_count, 0);
    assert_eq!(m.royalty, 10);
    assert_eq!(m.owner_id, "A");
    assert_eq!(m.creator_id, "A");

    assert_eq!(c.like_meme(s("m1"), s("B"), 7), Ok(()));
    assert_eq!(c.get_likes(s("m1")), 1);
    assert_eq!(c.get_meme(s("m1")).unwrap().likes_count, 1);
    assert_eq!(c.get_user_stats(&s("A")).total_likes, 1);

    assert_eq!(c.like_meme(s("m1"), s("B"), 8), Err(LedgerError::AlreadyLiked));
    assert_eq!(c.get_likes(s("m1")), 1);
    assert_eq!(c.get_meme(s("m1")).unwrap().likes_count, 1);
    assert_eq!(c.get_user_stats(&s("A")).total_likes, 1);

    assert_eq!(c.unlike_meme(s("m1"), s("B")), Ok(()));
    assert_eq!(c.get_likes(s("m1")), 0);
    assert_eq!(c.get_user_stats(&s("A")).total_likes, 0);

    assert_eq!(c.comment_meme(s("m1"), s("C"), s("nice"), 9), Ok(()));
    let cs = c.get_comments(s("m1"));
    assert_eq!(cs.len(), 1);
    assert_eq!(cs[0].text, "nice");
    assert_eq!(cs[0].user_id, "C");
    assert_eq!(cs[0].timestamp, 9);
    assert_eq!(c.get_user_stats(&s("A")).total_comments, 1);

    assert_eq!(mint(&mut c, "m1", "A"), Err(LedgerError::DuplicateIdentifier));
}

#[test]
fn duplicate_mint_leaves_record() {
    let mut c = MemeFiContract::new();
    assert_eq!(mint(&mut c, "m1", "A"), Ok(()));
    let r = c.mint_meme(s("m1"), s("u2"), s("t2"), s("d2"), 5, s("Z"));
    assert_eq!(r, Err(LedgerError::DuplicateIdentifier));
    // a duplicate is reported even where the royalty is also out of range
    let r = c.mint_meme(s("m1"), s("u2"), s("t2"), s("d2"), 200, s("Z"));
    assert_eq!(r, Err(LedgerError::DuplicateIdentifier));
    assert_eq!(c.get_memes_count(), 1);
    let m = c.get_meme(s("m1")).unwrap();
    assert_eq!(m.owner_id, "A");
    assert_eq!(m.title, "title");
}

#[test]
fn royalty_bounds() {
    let mut c = MemeFiContract::new();
    let r = c.mint_meme(s("a"), s("u"), s("t"), s("d"), 101, s("A"));
    assert_eq!(r, Err(LedgerError::InvalidRoyalty));
    assert_eq!(c.get_memes_count(), 0);
    assert!(c.get_meme(s("a")).is_none());
    let r = c.mint_meme(s("a"), s("u"), s("t"), s("d"), 100, s("A"));
    assert_eq!(r, Ok(()));
    let r = c.mint_meme(s("b"), s("u"), s("t"), s("d"), 0, s("A"));
    assert_eq!(r, Ok(()));
    assert_eq!(c.get_memes_count(), 2);
}

#[test]
fn missing_meme_errors() {
    let mut c = MemeFiContract::new();
    assert_eq!(c.like_meme(s("x"), s("B"), 1), Err(LedgerError::RecordNotFound));
    assert_eq!(c.unlike_meme(s("x"), s("B")), Err(LedgerError::RecordNotFound));
    assert_eq!(c.comment_meme(s("x"), s("B"), s("hi"), 1), Err(LedgerError::RecordNotFound));
    assert!(c.get_meme(s("x")).is_none());
    assert_eq!(c.get_likes(s("x")), 0);
    assert!(c.get_comments(s("x")).is_empty());
}

#[test]
fn unlike_without_like() {
    let mut c = MemeFiContract::new();
    mint(&mut c, "m1", "A").unwrap();
    assert_eq!(c.unlike_meme(s("m1"), s("B")), Err(LedgerError::NoLikeHistory));
    c.like_meme(s("m1"), s("C"), 3).unwrap();
    assert_eq!(c.unlike_meme(s("m1"), s("B")), Err(LedgerError::NotLiked));
    assert_eq!(c.get_likes(s("m1")), 1);
    assert_eq!(c.get_user_stats(&s("A")).total_likes, 1);
    // once every like is taken back, the history remains: the error is NotLiked
    c.unlike_meme(s("m1"), s("C")).unwrap();
    assert_eq!(c.unlike_meme(s("m1"), s("C")), Err(LedgerError::NotLiked));
}

#[test]
fn like_timestamp_survives_unlike() {
    let mut c = MemeFiContract::new();
    mint(&mut c, "m1", "A").unwrap();
    assert_eq!(c.get_meme(s("m1")).unwrap().last_like_timestamp, 0);
    c.like_meme(s("m1"), s("B"), 42).unwrap();
    c.like_meme(s("m1"), s("C"), 50).unwrap();
    assert_eq!(c.get_meme(s("m1")).unwrap().last_like_timestamp, 50);
    c.unlike_meme(s("m1"), s("C")).unwrap();
    let m = c.get_meme(s("m1")).unwrap();
    assert_eq!(m.last_like_timestamp, 50);
    assert_eq!(m.likes_count, 1);
    // liking again after an unlike succeeds
    assert_eq!(c.like_meme(s("m1"), s("C"), 60), Ok(()));
    assert_eq!(c.get_likes(s("m1")), 2);
}

#[test]
fn aggregates_follow_owner() {
    let mut c = MemeFiContract::new();
    mint(&mut c, "a1", "A").unwrap();
    mint(&mut c, "a2", "A").unwrap();
    mint(&mut c, "b1", "B").unwrap();
    c.like_meme(s("a1"), s("X"), 1).unwrap();
    c.like_meme(s("a2"), s("X"), 2).unwrap();
    c.like_meme(s("a2"), s("Y"), 3).unwrap();
    c.like_meme(s("b1"), s("X"), 4).unwrap();
    c.comment_meme(s("a1"), s("X"), s("one"), 5).unwrap();
    c.comment_meme(s("b1"), s("X"), s("two"), 6).unwrap();
    c.comment_meme(s("b1"), s("Y"), s("three"), 7).unwrap();
    let a = c.get_user_stats(&s("A"));
    let b = c.get_user_stats(&s("B"));
    assert_eq!(a.total_likes, 3);
    assert_eq!(a.total_comments, 1);
    assert_eq!(b.total_likes, 1);
    assert_eq!(b.total_comments, 2);
    assert_eq!(a.total_earnings, 0);
    let sum: u32 = c.get_user_memes(s("A")).iter().map(|m| m.likes_count).sum();
    assert_eq!(sum, a.total_likes);
    // the likers themselves own nothing
    assert_eq!(c.get_user_stats(&s("X")), UserStats::zero());
    assert_eq!(c.get_user_stats(&s("nobody")), UserStats::default());
}

#[test]
fn comment_validation() {
    let mut c = MemeFiContract::new();
    mint(&mut c, "m1", "A").unwrap();
    assert_eq!(c.comment_meme(s("m1"), s("B"), s(""), 1), Err(LedgerError::EmptyComment));
    assert_eq!(c.comment_meme(s("m1"), s("B"), s("   \t\n "), 1), Err(LedgerError::EmptyComment));
    let long = "x".repeat(501);
    assert_eq!(c.comment_meme(s("m1"), s("B"), long, 1), Err(LedgerError::CommentTooLong));
    assert!(c.get_comments(s("m1")).is_empty());
    assert_eq!(c.get_meme(s("m1")).unwrap().comments_count, 0);
    assert_eq!(c.get_user_stats(&s("A")).total_comments, 0);
    let exact = "y".repeat(500);
    assert_eq!(c.comment_meme(s("m1"), s("B"), exact.clone(), 2), Ok(()));
    assert_eq!(c.get_comments(s("m1"))[0].text, exact);
}

#[test]
fn comment_is_trimmed_and_ordered() {
    let mut c = MemeFiContract::new();
    mint(&mut c, "m1", "A").unwrap();
    c.comment_meme(s("m1"), s("B"), s("  nice  "), 1).unwrap();
    c.comment_meme(s("m1"), s("C"), s("\tsecond\n"), 2).unwrap();
    let cs = c.get_comments(s("m1"));
    assert_eq!(cs.len(), 2);
    assert_eq!(cs[0].text, "nice");
    assert_eq!(cs[1].text, "second");
    assert_eq!(cs[1].user_id, "C");
    assert_eq!(c.get_meme(s("m1")).unwrap().comments_count, 2);
}

#[test]
fn comment_with_given_trim() {
    let mut c = MemeFiContract::new();
    mint(&mut c, "m1", "A").unwrap();
    let raw = s(" ok ");
    assert_eq!(c.comment_trimmed(s("m1"), s("B"), &raw, s(""), 1), Err(LedgerError::EmptyComment));
    assert_eq!(c.comment_trimmed(s("m1"), s("B"), &raw, s("ok"), 1), Ok(()));
    assert_eq!(c.get_comments(s("m1"))[0].text, "ok");
}

#[test]
fn pagination() {
    let mut c = MemeFiContract::new();
    for k in 0..120 {
        mint(&mut c, &format!("m{}", k), "A").unwrap();
    }
    assert_eq!(c.get_memes_count(), 120);
    let all = c.get_all_memes(None, None);
    assert_eq!(all.len(), 50);
    assert_eq!(all[0].id, "m0");
    assert_eq!(all[49].id, "m49");
    let big = c.get_all_memes(Some(0), Some(1000));
    assert_eq!(big.len(), 100);
    let tail = c.get_all_memes(Some(110), Some(50));
    assert_eq!(tail.len(), 10);
    assert_eq!(tail[0].id, "m110");
    assert_eq!(tail[9].id, "m119");
    assert!(c.get_all_memes(Some(120), None).is_empty());
    assert!(c.get_all_memes(Some(u64::MAX), Some(u64::MAX)).is_empty());
    assert!(c.get_all_memes(Some(5), Some(0)).is_empty());
    let mid = c.get_all_memes(Some(3), Some(2));
    assert_eq!(mid.len(), 2);
    assert_eq!(mid[0].id, "m3");
    assert_eq!(mid[1].id, "m4");
}

#[test]
fn user_memes_in_mint_order() {
    let mut c = MemeFiContract::new();
    mint(&mut c, "a", "A").unwrap();
    mint(&mut c, "b", "B").unwrap();
    mint(&mut c, "c", "A").unwrap();
    let a = c.get_user_memes(s("A"));
    assert_eq!(a.len(), 2);
    assert_eq!(a[0].id, "a");
    assert_eq!(a[1].id, "c");
    assert!(c.get_user_memes(s("Q")).is_empty());
}

#[test]
fn construction_guard() {
    assert_eq!(MemeFiContract::init(true).err(), Some(LedgerError::AlreadyInitialized));
    let c = MemeFiContract::init(false).ok().unwrap();
    assert_eq!(c.get_memes_count(), 0);
}
