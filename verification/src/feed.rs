//! Feed and thread assembly. A post may carry a chain reference: a
//! `/`-delimited string of ancestor post ids. The parser here validates
//! every segment as a strictly positive decimal id and fails closed: a
//! malformed reference never reaches a store lookup, the post degrades to a
//! single-entry thread instead.

use vstd::prelude::*;

use crate::model::Post;
use crate::model::PostView;
use crate::model::RawPost;
use crate::model::RawPostView;
use crate::model::Thread;
use crate::model::ThreadView;
use crate::model::spec_own_entry;
use crate::store::FollowEdge;
use crate::store::PostRowView;
use crate::store::RECENT_POST_LIMIT;
use crate::store::Store;
use crate::store::StoreView;
use crate::store::post_of;
use crate::store::spec_followees;
use crate::store::spec_recent_from;
use crate::store::spec_recent_raw;
use crate::store::spec_select_posts;
use crate::store::spec_tags_for;

verus! {

/// A decimal digit.
pub open spec fn is_chain_digit(c: char) -> bool {
    48 <= c as u32 <= 57
}

/// The numeric value of a decimal digit.
pub open spec fn chain_digit_val(c: char) -> int {
    c as u32 - 48
}

/// The number a run of digits denotes, most significant digit first.
pub open spec fn seg_val(seg: Seq<char>) -> int
    decreases seg.len(),
{
    if seg.len() == 0 {
        0
    } else {
        seg_val(seg.drop_last()) * 10 + chain_digit_val(seg.last())
    }
}

/// A well-formed chain segment: nonempty, all digits, denoting a strictly
/// positive id that fits the id type.
pub open spec fn seg_ok(seg: Seq<char>) -> bool {
    &&& seg.len() > 0
    &&& forall|i: int| 0 <= i < seg.len() ==> is_chain_digit(#[trigger] seg[i])
    &&& 0 < seg_val(seg) <= i64::MAX
}

/// The segments of a chain reference: the string split at every `/`.
/// Splitting the empty string yields one empty segment, and every `/`
/// starts a new segment, so consecutive delimiters yield empty segments.
pub open spec fn spec_segments(s: Seq<char>) -> Seq<Seq<char>>
    decreases s.len(),
{
    if s.len() == 0 {
        seq![Seq::<char>::empty()]
    } else {
        let rest = spec_segments(s.drop_first());
        if s[0] == '/' {
            seq![Seq::<char>::empty()] + rest
        } else {
            seq![seq![s[0]] + rest[0]] + rest.drop_first()
        }
    }
}

/// The index of the first `/` in `s`, or `s.len()` if there is none.
pub open spec fn first_slash(s: Seq<char>) -> int
    decreases s.len(),
{
    if s.len() == 0 {
        0
    } else if s[0] == '/' {
        0
    } else {
        1 + first_slash(s.drop_first())
    }
}

/// The ids a chain reference denotes: one strictly positive id per segment,
/// or nothing at all if any segment is malformed.
pub open spec fn spec_chain_ids(s: Seq<char>) -> Option<Seq<i64>> {
    let segs = spec_segments(s);
    if forall|k: int| 0 <= k < segs.len() ==> seg_ok(#[trigger] segs[k]) {
        Option::Some(segs.map_values(|g: Seq<char>| seg_val(g) as i64))
    } else {
        Option::None
    }
}

/// `first_slash` lies within bounds, points at a `/` unless it is the
/// length, and nothing before it is a `/`.
proof fn lemma_first_slash(s: Seq<char>)
    ensures
        0 <= first_slash(s) <= s.len(),
        first_slash(s) < s.len() ==> s[first_slash(s)] == '/',
        forall|k: int| 0 <= k < first_slash(s) ==> s[k] != '/',
    decreases s.len(),
{
    if s.len() > 0 && s[0] != '/' {
        let t = s.drop_first();
        lemma_first_slash(t);
        assert forall|k: int| 0 <= k < first_slash(s) implies s[k] != '/' by {
            if k > 0 {
                assert(t[k - 1] != '/');
                assert(s[k] == t[k - 1]);
            }
        }
    }
}

/// The position that ends the first segment is exactly `first_slash`: no
/// `/` lies before `m`, and `m` is a `/` or the end.
proof fn lemma_first_slash_at(s: Seq<char>, m: int)
    requires
        0 <= m <= s.len(),
        forall|k: int| 0 <= k < m ==> s[k] != '/',
        m < s.len() ==> s[m] == '/',
    ensures
        first_slash(s) == m,
{
    lemma_first_slash(s);
    let fs = first_slash(s);
    if fs < m {
        assert(s[fs] != '/');
    }
    if m < fs {
        assert(s[m] != '/');
    }
}

/// The head segment of a chain is the run before the first slash; the
/// remaining segments are those of what follows it.
proof fn lemma_segments_head(s: Seq<char>)
    ensures
        spec_segments(s).len() >= 1,
        spec_segments(s)[0] == s.take(first_slash(s)),
        first_slash(s) < s.len() ==> spec_segments(s) == seq![s.take(first_slash(s))]
            + spec_segments(s.subrange(first_slash(s) + 1, s.len() as int)),
        first_slash(s) == s.len() ==> spec_segments(s) == seq![s],
    decreases s.len(),
{
    lemma_first_slash(s);
    let fs = first_slash(s);
    if s.len() == 0 {
        assert(s.take(0) =~= s);
        assert(s =~= Seq::<char>::empty());
        assert(spec_segments(s) =~~= seq![s]);
    } else if s[0] == '/' {
        let rest = spec_segments(s.drop_first());
        assert(s.take(0) =~= Seq::<char>::empty());
        assert(s.subrange(1, s.len() as int) =~= s.drop_first());
        assert(spec_segments(s) =~= seq![s.take(0)] + rest);
    } else {
        let t = s.drop_first();
        lemma_segments_head(t);
        let rest = spec_segments(t);
        let fst = first_slash(t);
        assert(fs == 1 + fst);
        assert(seq![s[0]] + t.take(fst) =~= s.take(fs));
        assert(spec_segments(s)[0] == s.take(fs));
        if fst < t.len() {
            assert(rest == seq![t.take(fst)] + spec_segments(t.subrange(fst + 1, t.len() as int)));
            assert(t.subrange(fst + 1, t.len() as int) =~= s.subrange(fs + 1, s.len() as int));
            assert(rest.drop_first() =~= spec_segments(s.subrange(fs + 1, s.len() as int)));
            assert(spec_segments(s) =~= seq![s.take(fs)] + spec_segments(
                s.subrange(fs + 1, s.len() as int),
            ));
        } else {
            assert(rest == seq![t]);
            assert(rest.drop_first() =~= Seq::<Seq<char>>::empty());
            assert(seq![s[0]] + t =~= s);
            assert(spec_segments(s) =~= seq![s]);
        }
    }
}

/// The value of an all-digit run is never negative.
proof fn lemma_seg_val_nonneg(seg: Seq<char>)
    requires
        forall|i: int| 0 <= i < seg.len() ==> is_chain_digit(#[trigger] seg[i]),
    ensures
        seg_val(seg) >= 0,
    decreases seg.len(),
{
    if seg.len() > 0 {
        lemma_seg_val_nonneg(seg.drop_last());
    }
}

/// Extending an all-digit run never shrinks its value: the value of a
/// prefix bounds the value of the whole run from below.
proof fn lemma_seg_val_prefix_le(seg: Seq<char>, j: int)
    requires
        0 <= j <= seg.len(),
        forall|i: int| 0 <= i < seg.len() ==> is_chain_digit(#[trigger] seg[i]),
    ensures
        seg_val(seg.take(j)) <= seg_val(seg),
    decreases seg.len() - j,
{
    if j == seg.len() {
        assert(seg.take(j) =~= seg);
    } else {
        assert forall|i: int| 0 <= i < seg.take(j).len() implies is_chain_digit(
            #[trigger] seg.take(j)[i],
        ) by {
            assert(seg.take(j)[i] == seg[i]);
        }
        lemma_seg_val_nonneg(seg.take(j));
        assert(seg.take(j + 1).drop_last() =~= seg.take(j));
        assert(seg.take(j + 1).last() == seg[j]);
        assert(seg_val(seg.take(j + 1)) == seg_val(seg.take(j)) * 10 + chain_digit_val(seg[j]));
        lemma_seg_val_prefix_le(seg, j + 1);
    }
}

/// Parses a chain reference. The ids come back exactly when every segment
/// is a nonempty run of digits denoting a strictly positive id that fits
/// the id type; any malformed fragment (a non-digit, an empty segment from
/// consecutive delimiters, a zero, an overflowing run) yields `None`.
#[verifier::loop_isolation(false)]
#[verifier::rlimit(100)]
pub fn parse_chain(s: &str) -> (r: Option<Vec<i64>>)
    ensures
        (r is Some) == (spec_chain_ids(s@) is Some),
        r matches Option::Some(v) ==> Option::Some(v@) == spec_chain_ids(s@),
{
    let n = s.unicode_len();
    let mut ids: Vec<i64> = Vec::new();
    let ghost mut done: Seq<Seq<char>> = Seq::empty();
    let mut i: usize = 0;
    proof {
        assert(s@.subrange(0, n as int) =~= s@);
        assert(done + spec_segments(s@.subrange(0, n as int)) =~= spec_segments(s@));
    }
    loop
        invariant
            i <= n,
            n == s@.len(),
            spec_segments(s@) == done + spec_segments(s@.subrange(i as int, n as int)),
            forall|k: int| 0 <= k < done.len() ==> seg_ok(#[trigger] done[k]),
            ids@.len() == done.len(),
            forall|k: int| 0 <= k < done.len() ==> ids@[k] as int == seg_val(#[trigger] done[k]),
        decreases n - i,
    {
        let ghost rest = s@.subrange(i as int, n as int);
        let mut j = i;
        let mut val: i64 = 0;
        while j < n && s.get_char(j) != '/'
            invariant
                i <= j <= n,
                forall|k: int| i <= k < j ==> is_chain_digit(#[trigger] s@[k]) && s@[k] != '/',
                0 <= val <= i64::MAX,
                val as int == seg_val(s@.subrange(i as int, j as int)),
            decreases n - j,
        {
            let c = s.get_char(j);
            let u = c as u32;
            proof {
                assert(s@.subrange(i as int, j as int + 1).drop_last() =~= s@.subrange(
                    i as int,
                    j as int,
                ));
                assert(s@.subrange(i as int, j as int + 1).last() == s@[j as int]);
            }
            if !(48 <= u && u <= 57) {
                // a non-digit inside a segment: the whole chain is rejected
                proof {
                    lemma_first_slash(rest);
                    lemma_segments_head(rest);
                    let fs = first_slash(rest);
                    if fs <= j - i {
                        assert(rest[fs] != '/');
                    }
                    let head = rest.take(fs);
                    assert(head[j - i] == s@[j as int]);
                    assert(!seg_ok(head));
                    assert(spec_segments(s@)[done.len() as int] == head);
                    assert(spec_chain_ids(s@) is None);
                }
                return None;
            }
            let d = (u - 48) as i64;
            if val > (i64::MAX - d) / 10 {
                // the id would overflow: the segment is malformed
                proof {
                    assert(val * 10 + d > i64::MAX);
                    lemma_first_slash(rest);
                    lemma_segments_head(rest);
                    let fs = first_slash(rest);
                    if fs <= j - i {
                        assert(rest[fs] != '/');
                    }
                    let head = rest.take(fs);
                    assert forall|k: int| 0 <= k < j + 1 - i implies head[k] == s@[i + k] by {}
                    let prefix = head.take(j + 1 - i);
                    assert(prefix =~= s@.subrange(i as int, j as int + 1));
                    assert(seg_val(prefix) == val * 10 + d);
                    if forall|k: int| 0 <= k < head.len() ==> is_chain_digit(#[trigger] head[k]) {
                        lemma_seg_val_prefix_le(head, j + 1 - i);
                        assert(seg_val(head) > i64::MAX);
                        assert(!seg_ok(head));
                    } else {
                        assert(!seg_ok(head));
                    }
                    assert(spec_segments(s@)[done.len() as int] == head);
                    assert(spec_chain_ids(s@) is None);
                }
                return None;
            }
            val = val * 10 + d;
            j += 1;
        }
        // the segment runs from i to j: a `/` or the end stands at j
        let ghost seg = s@.subrange(i as int, j as int);
        proof {
            assert forall|k: int| 0 <= k < j - i implies rest[k] != '/' by {
                assert(rest[k] == s@[i + k]);
            }
            if j < n {
                assert(rest[j - i] == s@[j as int]);
            }
            lemma_first_slash_at(rest, j - i);
            lemma_segments_head(rest);
            assert(rest.take(j - i) =~= seg);
            assert(spec_segments(s@)[done.len() as int] == seg);
        }
        if j == i {
            // an empty segment, from consecutive delimiters or the ends
            proof {
                assert(!seg_ok(seg));
                assert(spec_chain_ids(s@) is None);
            }
            return None;
        }
        if val == 0 {
            // ids are strictly positive: a zero segment is malformed
            proof {
                assert(!seg_ok(seg));
                assert(spec_chain_ids(s@) is None);
            }
            return None;
        }
        ids.push(val);
        proof {
            assert forall|k: int| 0 <= k < seg.len() implies is_chain_digit(
                #[trigger] seg[k],
            ) by {
                assert(seg[k] == s@[i + k]);
            }
            assert(seg_ok(seg));
            done = done.push(seg);
        }
        if j == n {
            proof {
                assert(spec_segments(rest) == seq![seg]);
                assert(spec_segments(s@) =~= done);
                assert forall|k: int|
                    0 <= k < spec_segments(s@).len() implies seg_ok(
                    #[trigger] spec_segments(s@)[k],
                ) by {}
                let m = spec_segments(s@).map_values(|g: Seq<char>| seg_val(g) as i64);
                assert forall|k: int| 0 <= k < m.len() implies ids@[k] == m[k] by {
                    assert(ids@[k] as int == seg_val(done[k]));
                }
                assert(ids@ =~= m);
            }
            return Some(ids);
        }
        proof {
            assert(spec_segments(rest) == seq![seg] + spec_segments(
                rest.subrange(j - i + 1, rest.len() as int),
            ));
            assert(rest.subrange(j - i + 1, rest.len() as int) =~= s@.subrange(
                j as int + 1,
                n as int,
            ));
            assert(done + spec_segments(s@.subrange(j as int + 1, n as int))
                =~= spec_segments(s@));
        }
        i = j + 1;
    }
}


/// Every id of a parsed chain resolves to a stored post row.
pub open spec fn chain_resolves(s: StoreView, ids: Seq<i64>) -> bool {
    forall|k: int| 0 <= k < ids.len() ==> s.valid_post_id(#[trigger] ids[k])
}

/// The contents of the thread a raw post expands to: the stored rows its
/// chain names, in table order, followed by the post itself. A missing
/// chain, a malformed one, or one naming a post that does not exist all
/// degrade to the post alone: the assembler fails closed.
pub open spec fn spec_thread_contents(s: StoreView, raw: RawPostView) -> Seq<PostView> {
    match raw.thread {
        Option::Some(chain) => match spec_chain_ids(chain) {
            Option::Some(ids) => if chain_resolves(s, ids) {
                spec_select_posts(s, s.posts, ids).push(spec_own_entry(raw))
            } else {
                seq![spec_own_entry(raw)]
            },
            Option::None => seq![spec_own_entry(raw)],
        },
        Option::None => seq![spec_own_entry(raw)],
    }
}

/// The thread a raw post expands to: its chain contents, under the post's
/// author and creation stamp, with the post's tag names attached.
pub open spec fn spec_thread_of(s: StoreView, raw: RawPostView) -> ThreadView {
    ThreadView {
        username: raw.username,
        created: raw.created,
        contents: spec_thread_contents(s, raw),
        tags: spec_tags_for(s, raw.id),
    }
}

/// Whether every id in `ids` resolves to a stored post row.
fn all_ids_resolve(store: &Store, ids: &Vec<i64>) -> (r: bool)
    requires
        store@.wf(),
    ensures
        r == chain_resolves(store@, ids@),
{
    proof {
        if store@.posts.len() > 0 {
            assert(store@.posts[store@.posts.len() - 1].id == store@.posts.len() as int);
        }
    }
    let bound = store.post_count() as i64;
    let n = ids.len();
    let mut i: usize = 0;
    while i < n
        invariant
            i <= n,
            n == ids@.len(),
            bound == store@.posts.len(),
            forall|k: int| 0 <= k < i ==> store@.valid_post_id(#[trigger] ids@[k]),
        decreases n - i,
    {
        let id = ids[i];
        if !(1 <= id && id <= bound) {
            return false;
        }
        i += 1;
    }
    true
}

impl RawPost {
    /// Expands this post into its thread. A chain reference is parsed and,
    /// when every segment is a valid id of an existing post, those rows are
    /// fetched and the post appended as the final entry; otherwise the
    /// thread holds the post alone. The post's tag names are attached.
    pub fn into(&self, store: &Store) -> (r: Thread)
        requires
            store@.wf(),
        ensures
            r@ == spec_thread_of(store@, self@),
    {
        let ghost rawv = self@;
        let tags = store.list_tags_for_post(self.id);
        let mut contents: Vec<Post> = Vec::new();
        match &self.thread {
            Option::Some(t) => {
                match parse_chain(t.as_str()) {
                    Option::Some(ids) => {
                        if all_ids_resolve(store, &ids) {
                            contents = store.list_posts_by_ids(&ids);
                        }
                    },
                    Option::None => {},
                }
            },
            Option::None => {},
        }
        let username = self.username.clone();
        let ghost prefix = contents.deep_view();
        let own = Post {
            id: self.id,
            username: self.username.clone(),
            created: self.created,
            summary: self.summary.clone(),
            body: self.body.clone(),
        };
        proof {
            assert(own@ == spec_own_entry(rawv));
            assert(prefix.push(own@) =~= spec_thread_contents(store@, rawv));
        }
        contents.push(own);
        let r = Thread { username, created: self.created, contents, tags };
        proof {
            assert(r@.contents =~= spec_thread_contents(store@, rawv));
            assert(r@.tags =~= spec_tags_for(store@, rawv.id));
        }
        r
    }
}


/// The threads of one followee's recent posts, newest first.
pub open spec fn spec_threads_for(s: StoreView, author: i64) -> Seq<ThreadView> {
    spec_recent_raw(s, author).map_values(|r: RawPostView| spec_thread_of(s, r))
}

/// The dashboard feed over a followee list: each followee's recent posts
/// expanded to threads, followees kept in edge order.
pub open spec fn spec_dash_from(s: StoreView, followees: Seq<i64>) -> Seq<ThreadView>
    decreases followees.len(),
{
    if followees.len() == 0 {
        Seq::empty()
    } else {
        spec_dash_from(s, followees.drop_last()) + spec_threads_for(s, followees.last())
    }
}

/// The dashboard feed of `user_id`: the threads of every followee's recent
/// posts, in followee order.
pub open spec fn spec_dash(s: StoreView, user_id: i64) -> Seq<ThreadView> {
    spec_dash_from(s, spec_followees(s.follows, user_id))
}

/// A follower without edges has no followees.
proof fn lemma_followees_empty(follows: Seq<FollowEdge>, follower: i64)
    requires
        forall|i: int| 0 <= i < follows.len() ==> (#[trigger] follows[i]).follower != follower,
    ensures
        spec_followees(follows, follower) == Seq::<i64>::empty(),
    decreases follows.len(),
{
    if follows.len() > 0 {
        lemma_followees_empty(follows.drop_last(), follower);
    }
}

/// A user following nobody sees an empty feed.
pub proof fn lemma_feed_empty_without_followees(s: StoreView, user_id: i64)
    requires
        forall|i: int| 0 <= i < s.follows.len() ==> (#[trigger] s.follows[i]).follower != user_id,
    ensures
        spec_dash(s, user_id) == Seq::<ThreadView>::empty(),
{
    lemma_followees_empty(s.follows, user_id);
}

/// Selecting one id from the first `m` rows of a well-formed table yields
/// exactly that row, or nothing if the id lies beyond `m`.
proof fn lemma_select_single(s: StoreView, m: int, target: i64)
    requires
        s.wf(),
        0 <= m <= s.posts.len(),
    ensures
        spec_select_posts(s, s.posts.take(m), seq![target]) == if 1 <= target <= m {
            seq![post_of(s.post_row(target), s.username_of(s.post_row(target).user_id))]
        } else {
            Seq::<PostView>::empty()
        },
    decreases m,
{
    if m == 0 {
        assert(s.posts.take(0) =~= Seq::<PostRowView>::empty());
    } else {
        lemma_select_single(s, m - 1, target);
        let pre = s.posts.take(m);
        assert(pre.drop_last() =~= s.posts.take(m - 1));
        assert(pre.last() == s.posts[m - 1]);
        assert(s.posts[m - 1].id == m);
        assert(seq![target][0] == target);
        if target == m {
            assert(seq![target].contains(pre.last().id));
            assert(spec_select_posts(s, pre, seq![target]) =~= seq![
                post_of(s.post_row(target), s.username_of(s.post_row(target).user_id)),
            ]);
        } else {
            if seq![target].contains(pre.last().id) {
                let w = choose|w: int| 0 <= w < 1 && seq![target][w] == pre.last().id;
                assert(false);
            }
        }
    }
}

/// An expanded thread of a followee stands in any of their followers' feeds.
proof fn lemma_dash_from_contains(s: StoreView, followees: Seq<i64>, author: i64, k: int)
    requires
        followees.contains(author),
        0 <= k < spec_threads_for(s, author).len(),
    ensures
        spec_dash_from(s, followees).contains(spec_threads_for(s, author)[k]),
    decreases followees.len(),
{
    let pre = spec_dash_from(s, followees.drop_last());
    let blk = spec_threads_for(s, followees.last());
    if followees.last() == author {
        assert(spec_dash_from(s, followees)[pre.len() + k] == blk[k]);
    } else {
        let i = choose|i: int| 0 <= i < followees.len() && followees[i] == author;
        assert(followees.drop_last()[i] == author);
        assert(followees.drop_last().contains(author));
        lemma_dash_from_contains(s, followees.drop_last(), author, k);
        let j = choose|j: int| 0 <= j < pre.len() && pre[j] == spec_threads_for(s, author)[k];
        assert(spec_dash_from(s, followees)[j] == pre[j]);
    }
}

/// A post whose chain names exactly one existing ancestor appears, in the
/// feed of any follower of its author, as a thread holding the ancestor's
/// post and then the post itself, in that order, with the post's tag names
/// attached — provided the post is among the author's recent posts, which
/// is all a feed fetch returns.
pub proof fn lemma_feed_thread_for_chained_post(
    s: StoreView,
    user_id: i64,
    author: i64,
    k: int,
    ancestor: i64,
)
    requires
        s.wf(),
        spec_followees(s.follows, user_id).contains(author),
        0 <= k < spec_recent_raw(s, author).len(),
        spec_recent_raw(s, author)[k].thread matches Option::Some(chain) && spec_chain_ids(chain)
            == Option::Some(seq![ancestor]),
        s.valid_post_id(ancestor),
    ensures
        ({
            let raw = spec_recent_raw(s, author)[k];
            let t = spec_thread_of(s, raw);
            &&& spec_dash(s, user_id).contains(t)
            &&& t.contents == seq![
                post_of(s.post_row(ancestor), s.username_of(s.post_row(ancestor).user_id)),
                spec_own_entry(raw),
            ]
            &&& t.tags == spec_tags_for(s, raw.id)
        }),
{
    let raw = spec_recent_raw(s, author)[k];
    let ids = seq![ancestor];
    assert(ids[0] == ancestor);
    assert forall|w: int| 0 <= w < ids.len() implies s.valid_post_id(#[trigger] ids[w]) by {
        assert(ids[w] == ancestor);
    }
    assert(chain_resolves(s, ids));
    lemma_select_single(s, s.posts.len() as int, ancestor);
    assert(s.posts.take(s.posts.len() as int) =~= s.posts);
    let t = spec_thread_of(s, raw);
    assert(t.contents =~= seq![
        post_of(s.post_row(ancestor), s.username_of(s.post_row(ancestor).user_id)),
        spec_own_entry(raw),
    ]);
    assert(spec_threads_for(s, author)[k] == t);
    lemma_dash_from_contains(s, spec_followees(s.follows, user_id), author, k);
}

/// A malformed chain reference never reaches the store: the post degrades
/// to a single-entry thread holding only the referencing post.
pub proof fn lemma_malformed_chain_degrades(s: StoreView, raw: RawPostView)
    requires
        raw.thread matches Option::Some(chain) && spec_chain_ids(chain) is None,
    ensures
        spec_thread_of(s, raw).contents == seq![spec_own_entry(raw)],
{
}

/// A chain naming a post that does not exist degrades the same way: the
/// assembler fails closed rather than fetching a partial chain.
pub proof fn lemma_unresolved_chain_degrades(s: StoreView, raw: RawPostView)
    requires
        raw.thread matches Option::Some(chain) && spec_chain_ids(chain) matches Option::Some(ids)
            && !chain_resolves(s, ids),
    ensures
        spec_thread_of(s, raw).contents == seq![spec_own_entry(raw)],
{
}

/// Over a table ordered by creation stamp, a recent-post fetch returns at
/// most `k` rows, newest first, none newer than the newest row.
proof fn lemma_recent_from_sorted(posts: Seq<PostRowView>, author: i64, k: nat)
    requires
        forall|i: int, j: int|
            0 <= i <= j < posts.len() ==> (#[trigger] posts[i]).created
                <= (#[trigger] posts[j]).created,
    ensures
        spec_recent_from(posts, author, k).len() <= k,
        forall|i: int, j: int|
            0 <= i <= j < spec_recent_from(posts, author, k).len() ==> (#[trigger] spec_recent_from(
                posts,
                author,
                k,
            )[i]).created >= (#[trigger] spec_recent_from(posts, author, k)[j]).created,
        forall|i: int|
            0 <= i < spec_recent_from(posts, author, k).len() ==> posts.len() > 0
                && (#[trigger] spec_recent_from(posts, author, k)[i]).created
                <= posts.last().created,
    decreases posts.len(),
{
    if posts.len() > 0 && k > 0 {
        let d = posts.drop_last();
        assert forall|i: int, j: int|
            0 <= i <= j < d.len() implies (#[trigger] d[i]).created
            <= (#[trigger] d[j]).created by {
            assert(d[i] == posts[i]);
            assert(d[j] == posts[j]);
        }
        lemma_recent_from_sorted(d, author, (k - 1) as nat);
        lemma_recent_from_sorted(d, author, k);
        if posts.last().user_id == author {
            let res = spec_recent_from(posts, author, k);
            let rest = spec_recent_from(d, author, (k - 1) as nat);
            assert(res == seq![posts.last()] + rest);
            assert forall|i: int|
                0 <= i < res.len() implies (#[trigger] res[i]).created
                <= posts.last().created by {
                if i > 0 {
                    assert(res[i] == rest[i - 1]);
                    if d.len() > 0 {
                        assert(d.last() == posts[posts.len() - 2]);
                        assert(d.last().created <= posts.last().created);
                    }
                }
            }
            assert forall|i: int, j: int|
                0 <= i <= j < res.len() implies (#[trigger] res[i]).created
                >= (#[trigger] res[j]).created by {
                if 0 < i {
                    assert(res[i] == rest[i - 1]);
                    assert(res[j] == rest[j - 1]);
                } else if 0 == i && 0 < j {
                    assert(res[j] == rest[j - 1]);
                    assert(rest[j - 1].created <= posts.last().created);
                }
            }
        }
    }
}

/// A feed fetch never returns more posts than the configured limit, and
/// what it returns is ordered newest first.
pub proof fn lemma_recent_posts_limited_and_newest_first(s: StoreView, author: i64)
    requires
        s.wf(),
    ensures
        spec_recent_raw(s, author).len() <= RECENT_POST_LIMIT,
        forall|i: int, j: int|
            0 <= i <= j < spec_recent_raw(s, author).len() ==> (#[trigger] spec_recent_raw(
                s,
                author,
            )[i]).created >= (#[trigger] spec_recent_raw(s, author)[j]).created,
{
    lemma_recent_from_sorted(s.posts, author, RECENT_POST_LIMIT as nat);
    let rows = spec_recent_from(s.posts, author, RECENT_POST_LIMIT as nat);
    assert forall|i: int|
        0 <= i < spec_recent_raw(s, author).len() implies (#[trigger] spec_recent_raw(
        s,
        author,
    )[i]).created == rows[i].created by {}
}

} // verus!
