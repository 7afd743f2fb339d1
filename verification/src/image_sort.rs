//! Sorting a folder's images: by name, by type, by date or by size, up or
//! down. Images of equal rank keep the order in which they were given, so
//! each sort has exactly one result.

use crate::file_system::{modified_instant, ImageFile, Timestamp};
use crate::models::{SortBy, SortOrder};
use crate::paths::{extension, path_extension};
use crate::sorting::{
    bytes_precede, key_before, lemma_ranks_asymmetric, lemma_ranks_not_before_transitive,
    lemma_ranks_total, ranks_before,
};
use vstd::prelude::*;
use vstd::string::*;
use vstd::utf8::encode_utf8;

verus! {

/// What an image is ranked by under each sort: its file name; its path's
/// extension, none counting as the empty text; the time it was modified; its
/// length.
pub open spec fn sort_key_of(image: ImageFile, by: SortBy) -> (int, Seq<u8>) {
    match by {
        SortBy::Name => (0, encode_utf8(image.name@)),
        SortBy::Type => (
            0,
            match path_extension(image.path@) {
                Some(ext) => encode_utf8(ext),
                None => Seq::empty(),
            },
        ),
        SortBy::Date => (modified_instant(image.modified), Seq::empty()),
        SortBy::Size => (image.len as int, Seq::empty()),
    }
}

/// Whether image `a` comes before image `b` under the given sort.
pub open spec fn image_before(a: ImageFile, b: ImageFile, by: SortBy, order: SortOrder) -> bool {
    ranks_before(sort_key_of(a, by), sort_key_of(b, by), order)
}

/// How many of the leading images of `sorted` come before `image`.
pub open spec fn insertion_point(
    sorted: Seq<ImageFile>,
    image: ImageFile,
    by: SortBy,
    order: SortOrder,
) -> int
    decreases sorted.len(),
{
    if sorted.len() > 0 && image_before(sorted.first(), image, by, order) {
        1 + insertion_point(sorted.drop_first(), image, by, order)
    } else {
        0
    }
}

/// The images in the order of the given sort, those of equal rank in the
/// order in which they were given.
pub open spec fn stable_sorted(images: Seq<ImageFile>, by: SortBy, order: SortOrder) -> Seq<
    ImageFile,
>
    decreases images.len(),
{
    if images.len() == 0 {
        images
    } else {
        let rest = stable_sorted(images.drop_first(), by, order);
        rest.insert(insertion_point(rest, images.first(), by, order), images.first())
    }
}

/// Whether no image of the list comes before an earlier one.
pub open spec fn is_sorted(images: Seq<ImageFile>, by: SortBy, order: SortOrder) -> bool {
    forall|i: int, j: int|
        0 <= i < j < images.len() ==> !image_before(
            #[trigger] images[j],
            #[trigger] images[i],
            by,
            order,
        )
}

/// The images of a list that have the given rank, in the list's order.
pub open spec fn of_rank(images: Seq<ImageFile>, by: SortBy, rank: (int, Seq<u8>)) -> Seq<
    ImageFile,
> {
    images.filter(|image: ImageFile| sort_key_of(image, by) == rank)
}

/// Where an image goes into a sorted list: after every image that comes
/// before it, and before the first that does not.
pub proof fn lemma_insertion_point(
    sorted: Seq<ImageFile>,
    image: ImageFile,
    by: SortBy,
    order: SortOrder,
)
    ensures
        0 <= insertion_point(sorted, image, by, order) <= sorted.len(),
        forall|j: int|
            0 <= j < insertion_point(sorted, image, by, order) ==> image_before(
                #[trigger] sorted[j],
                image,
                by,
                order,
            ),
        insertion_point(sorted, image, by, order) < sorted.len() ==> !image_before(
            sorted[insertion_point(sorted, image, by, order)],
            image,
            by,
            order,
        ),
    decreases sorted.len(),
{
    if sorted.len() > 0 && image_before(sorted.first(), image, by, order) {
        let rest = sorted.drop_first();
        lemma_insertion_point(rest, image, by, order);
        let at = insertion_point(rest, image, by, order);
        assert forall|j: int| 0 <= j < at + 1 implies image_before(
            #[trigger] sorted[j],
            image,
            by,
            order,
        ) by {
            if j > 0 {
                assert(sorted[j] == rest[j - 1]);
            }
        }
        if at < rest.len() {
            assert(sorted[at + 1] == rest[at]);
        }
    }
}

/// An image put at its insertion point leaves a sorted list sorted, comes
/// first among the images of its own rank, and leaves the images of every
/// other rank as they were.
proof fn lemma_insert_keeps_order(
    sorted: Seq<ImageFile>,
    image: ImageFile,
    by: SortBy,
    order: SortOrder,
)
    requires
        is_sorted(sorted, by, order),
    ensures
        is_sorted(
            sorted.insert(insertion_point(sorted, image, by, order), image),
            by,
            order,
        ),
        forall|rank: (int, Seq<u8>)|
            #[trigger] of_rank(
                sorted.insert(insertion_point(sorted, image, by, order), image),
                by,
                rank,
            ) == if sort_key_of(image, by) == rank {
                seq![image] + of_rank(sorted, by, rank)
            } else {
                of_rank(sorted, by, rank)
            },
{
    lemma_insertion_point(sorted, image, by, order);
    let at = insertion_point(sorted, image, by, order);
    let grown = sorted.insert(at, image);
    let own = sort_key_of(image, by);
    assert forall|i: int, j: int| 0 <= i < j < grown.len() implies !image_before(
        #[trigger] grown[j],
        #[trigger] grown[i],
        by,
        order,
    ) by {
        let i0 = if i < at { i } else { i - 1 };
        let j0 = if j < at { j } else { j - 1 };
        if i == at {
            // `image` against a later one, which stood at or after `at`
            assert(grown[j] == sorted[j0]);
            if j0 > at {
                assert(!image_before(sorted[j0], sorted[at], by, order));
                lemma_ranks_not_before_transitive(
                    sort_key_of(sorted[j0], by),
                    sort_key_of(sorted[at], by),
                    own,
                    order,
                );
            }
        } else if j == at {
            // an earlier one against `image`
            assert(grown[i] == sorted[i0]);
            assert(image_before(sorted[i0], image, by, order));
            lemma_ranks_asymmetric(sort_key_of(sorted[i0], by), own, order);
        } else {
            assert(grown[i] == sorted[i0] && grown[j] == sorted[j0]);
        }
    }
    assert forall|rank: (int, Seq<u8>)|
        #[trigger] of_rank(grown, by, rank) == if own == rank {
            seq![image] + of_rank(sorted, by, rank)
        } else {
            of_rank(sorted, by, rank)
        } by {
        let same = |other: ImageFile| sort_key_of(other, by) == rank;
        let head = sorted.take(at);
        let tail = sorted.skip(at);
        assert(sorted =~= head + tail);
        assert(grown =~= head + (seq![image] + tail));
        Seq::filter_distributes_over_add(head, tail, same);
        Seq::filter_distributes_over_add(head, seq![image] + tail, same);
        Seq::filter_distributes_over_add(seq![image], tail, same);
        assert(seq![image].filter(same) =~= if own == rank {
            seq![image]
        } else {
            Seq::empty()
        }) by {
            reveal_with_fuel(Seq::filter, 2);
            assert(seq![image].drop_last() =~= Seq::<ImageFile>::empty());
        }
        if own == rank {
            assert(head.filter(same) =~= Seq::<ImageFile>::empty()) by {
                if head.filter(same).len() > 0 {
                    let found = head.filter(same)[0];
                    head.lemma_filter_pred(same, 0);
                    head.lemma_filter_contains_rev(same, found);
                    let j = choose|j: int| 0 <= j < head.len() && head[j] == found;
                    assert(image_before(sorted[j], image, by, order));
                    lemma_ranks_asymmetric(own, own, order);
                }
            }
        }
    }
}

/// What the sort gives, said directly: the list is sorted; and for every
/// rank, the images of that rank are the same as before and in the same
/// order. So each image is listed exactly as often as it was given, and
/// images of equal rank keep their order.
pub proof fn lemma_stable_sorted(images: Seq<ImageFile>, by: SortBy, order: SortOrder)
    ensures
        is_sorted(stable_sorted(images, by, order), by, order),
        stable_sorted(images, by, order).len() == images.len(),
        forall|rank: (int, Seq<u8>)|
            #[trigger] of_rank(stable_sorted(images, by, order), by, rank) == of_rank(
                images,
                by,
                rank,
            ),
    decreases images.len(),
{
    if images.len() > 0 {
        let first = images.first();
        let rest = images.drop_first();
        lemma_stable_sorted(rest, by, order);
        let sorted_rest = stable_sorted(rest, by, order);
        lemma_insertion_point(sorted_rest, first, by, order);
        lemma_insert_keeps_order(sorted_rest, first, by, order);
        assert forall|rank: (int, Seq<u8>)|
            #[trigger] of_rank(stable_sorted(images, by, order), by, rank) == of_rank(
                images,
                by,
                rank,
            ) by {
            let same = |other: ImageFile| sort_key_of(other, by) == rank;
            assert(images =~= seq![first] + rest);
            Seq::filter_distributes_over_add(seq![first], rest, same);
            assert(seq![first].filter(same) =~= if sort_key_of(first, by) == rank {
                seq![first]
            } else {
                Seq::empty()
            }) by {
                reveal_with_fuel(Seq::filter, 2);
                assert(seq![first].drop_last() =~= Seq::<ImageFile>::empty());
            }
            assert(of_rank(sorted_rest, by, rank) == of_rank(rest, by, rank));
        }
    }
}

/// The time by which an entry is ranked.
fn instant(modified: &Option<Timestamp>) -> (nanos: i128)
    ensures
        nanos == modified_instant(*modified),
{
    match modified {
        Some(time) => {
            let distance: i128 = time.secs as i128 * 1_000_000_000 + time.nanos as i128;
            if time.before_epoch {
                -distance
            } else {
                distance
            }
        },
        None => 0,
    }
}

/// The bytes of an extension, none counting as the empty text.
fn extension_bytes(ext: &Option<String>) -> (bytes: &[u8])
    ensures
        bytes@ == match *ext {
            Some(text) => encode_utf8(text@),
            None => Seq::empty(),
        },
{
    match ext {
        Some(text) => text.as_str().as_bytes(),
        None => &[],
    }
}

/// Whether image `a` comes before image `b` under the given sort, ascending.
fn image_ranks_lower(a: &ImageFile, b: &ImageFile, by: &SortBy) -> (lower: bool)
    ensures
        lower == key_before(sort_key_of(*a, *by), sort_key_of(*b, *by)),
{
    match by {
        SortBy::Name => bytes_precede(a.name.as_str().as_bytes(), b.name.as_str().as_bytes()),
        SortBy::Type => {
            let ext_a = extension(a.path.as_str());
            let ext_b = extension(b.path.as_str());
            bytes_precede(extension_bytes(&ext_a), extension_bytes(&ext_b))
        },
        SortBy::Date => instant(&a.modified) < instant(&b.modified),
        SortBy::Size => a.len < b.len,
    }
}

/// Whether image `a` comes before image `b` under the given sort.
pub fn image_precedes(a: &ImageFile, b: &ImageFile, by: &SortBy, order: &SortOrder) -> (before:
    bool)
    ensures
        before == image_before(*a, *b, *by, *order),
{
    match order {
        SortOrder::Asc => image_ranks_lower(a, b, by),
        SortOrder::Desc => image_ranks_lower(b, a, by),
    }
}

/// Two sorted lists that hold the same images of every rank, in the same
/// order, are the same list.
pub proof fn lemma_sorted_lists_agree(
    a: Seq<ImageFile>,
    b: Seq<ImageFile>,
    by: SortBy,
    order: SortOrder,
)
    requires
        is_sorted(a, by, order),
        is_sorted(b, by, order),
        forall|rank: (int, Seq<u8>)| #[trigger] of_rank(a, by, rank) == of_rank(b, by, rank),
    ensures
        a == b,
    decreases a.len(),
{
    reveal(Seq::filter);
    if a.len() == 0 {
        if b.len() > 0 {
            let rank = sort_key_of(b.last(), by);
            assert(of_rank(b, by, rank).len() > 0);
            assert(of_rank(a, by, rank).len() == 0);
        }
        assert(a =~= b);
    } else {
        let x = a.last();
        let own = sort_key_of(x, by);
        let same = |image: ImageFile| sort_key_of(image, by) == own;
        assert(of_rank(a, by, own) == of_rank(a.drop_last(), by, own).push(x));
        assert(of_rank(b, by, own).last() == x);
        assert(b.len() > 0);
        let y = b.last();
        let other = sort_key_of(y, by);
        if other != own {
            // `x` stands somewhere before the end of `b`, and `y` before the end of `a`
            assert(of_rank(b, by, own).contains(x));
            b.lemma_filter_contains_rev(same, x);
            let p = choose|p: int| 0 <= p < b.len() && b[p] == x;
            assert(p < b.len() - 1);
            assert(!image_before(b[b.len() - 1], b[p], by, order));
            let same_other = |image: ImageFile| sort_key_of(image, by) == other;
            assert(of_rank(b, by, other) == of_rank(b.drop_last(), by, other).push(y));
            assert(of_rank(a, by, other).last() == y);
            assert(of_rank(a, by, other).contains(y));
            a.lemma_filter_contains_rev(same_other, y);
            let q = choose|q: int| 0 <= q < a.len() && a[q] == y;
            assert(q < a.len() - 1);
            assert(!image_before(a[a.len() - 1], a[q], by, order));
            lemma_ranks_total(own, other, order);
        }
        assert(y == x) by {
            assert(of_rank(b, by, own) == of_rank(b.drop_last(), by, own).push(y));
        }
        let shorter_a = a.drop_last();
        let shorter_b = b.drop_last();
        assert forall|i: int, j: int| 0 <= i < j < shorter_a.len() implies !image_before(
            #[trigger] shorter_a[j],
            #[trigger] shorter_a[i],
            by,
            order,
        ) by {
            assert(shorter_a[i] == a[i] && shorter_a[j] == a[j]);
        }
        assert forall|i: int, j: int| 0 <= i < j < shorter_b.len() implies !image_before(
            #[trigger] shorter_b[j],
            #[trigger] shorter_b[i],
            by,
            order,
        ) by {
            assert(shorter_b[i] == b[i] && shorter_b[j] == b[j]);
        }
        assert forall|rank: (int, Seq<u8>)| #[trigger]
            of_rank(shorter_a, by, rank) == of_rank(shorter_b, by, rank) by {
            assert(of_rank(a, by, rank) == of_rank(b, by, rank));
            if rank == own {
                assert(of_rank(a, by, rank) == of_rank(shorter_a, by, rank).push(x));
                assert(of_rank(b, by, rank) == of_rank(shorter_b, by, rank).push(x));
                assert(of_rank(shorter_a, by, rank) =~= of_rank(a, by, rank).drop_last());
                assert(of_rank(shorter_b, by, rank) =~= of_rank(b, by, rank).drop_last());
            } else {
                assert(of_rank(a, by, rank) == of_rank(shorter_a, by, rank));
                assert(of_rank(b, by, rank) == of_rank(shorter_b, by, rank));
            }
        }
        lemma_sorted_lists_agree(shorter_a, shorter_b, by, order);
        assert(a =~= shorter_a.push(x));
        assert(b =~= shorter_b.push(y));
    }
}

/// The sort is the only way: a list that is sorted, and that holds the
/// images of every rank as they were given, is the sorted list.
pub proof fn lemma_stable_sort_is_unique(
    sorted: Seq<ImageFile>,
    images: Seq<ImageFile>,
    by: SortBy,
    order: SortOrder,
)
    requires
        is_sorted(sorted, by, order),
        forall|rank: (int, Seq<u8>)|
            #[trigger] of_rank(sorted, by, rank) == of_rank(images, by, rank),
    ensures
        sorted == stable_sorted(images, by, order),
{
    lemma_stable_sorted(images, by, order);
    lemma_sorted_lists_agree(sorted, stable_sorted(images, by, order), by, order);
}

/// The images of a rank in a list with one more image at its end.
proof fn lemma_of_rank_push(images: Seq<ImageFile>, image: ImageFile, by: SortBy, rank: (int, Seq<u8>))
    ensures
        of_rank(images.push(image), by, rank) == if sort_key_of(image, by) == rank {
            of_rank(images, by, rank).push(image)
        } else {
            of_rank(images, by, rank)
        },
{
    reveal(Seq::filter);
    assert(images.push(image).drop_last() =~= images);
}

/// The images of a rank in a list with one more image at its front.
proof fn lemma_of_rank_cons(image: ImageFile, images: Seq<ImageFile>, by: SortBy, rank: (int, Seq<u8>))
    ensures
        of_rank(seq![image] + images, by, rank) == if sort_key_of(image, by) == rank {
            seq![image] + of_rank(images, by, rank)
        } else {
            of_rank(images, by, rank)
        },
{
    let same = |other: ImageFile| sort_key_of(other, by) == rank;
    Seq::filter_distributes_over_add(seq![image], images, same);
    lemma_of_rank_push(Seq::empty(), image, by, rank);
    assert(Seq::<ImageFile>::empty().push(image) =~= seq![image]);
    assert(of_rank(Seq::empty(), by, rank) =~= Seq::<ImageFile>::empty()) by {
        reveal(Seq::filter);
    }
    if sort_key_of(image, by) == rank {
        assert(Seq::<ImageFile>::empty().push(image) + of_rank(images, by, rank) =~= seq![image]
            + of_rank(images, by, rank));
    } else {
        assert(Seq::<ImageFile>::empty() + of_rank(images, by, rank) =~= of_rank(images, by, rank));
    }
}

/// A list without an image of a rank has no images of that rank.
proof fn lemma_of_rank_none(images: Seq<ImageFile>, by: SortBy, rank: (int, Seq<u8>))
    requires
        forall|i: int| 0 <= i < images.len() ==> sort_key_of(#[trigger] images[i], by) != rank,
    ensures
        of_rank(images, by, rank) == Seq::<ImageFile>::empty(),
    decreases images.len(),
{
    reveal(Seq::filter);
    if images.len() > 0 {
        assert forall|i: int| 0 <= i < images.drop_last().len() implies sort_key_of(
            #[trigger] images.drop_last()[i],
            by,
        ) != rank by {
            assert(images.drop_last()[i] == images[i]);
        }
        lemma_of_rank_none(images.drop_last(), by, rank);
        assert(sort_key_of(images[images.len() - 1], by) != rank);
    }
    assert(of_rank(images, by, rank) =~= Seq::<ImageFile>::empty());
}

/// Whether no image of `low` comes after an image of `high`.
spec fn all_before(low: Seq<ImageFile>, high: Seq<ImageFile>, by: SortBy, order: SortOrder)
    -> bool {
    forall|i: int, j: int|
        0 <= i < low.len() && 0 <= j < high.len() ==> !image_before(
            #[trigger] high[j],
            #[trigger] low[i],
            by,
            order,
        )
}

/// What holds while two sorted lists are merged from their ends: `left` and
/// `right` are what is left of them, `tail` is the end of the merged list.
/// All three are sorted, nothing that is left comes after an image of the
/// tail, and for every rank the images of the two lists are those that are
/// left followed by those of the tail.
spec fn merging(
    left: Seq<ImageFile>,
    right: Seq<ImageFile>,
    tail: Seq<ImageFile>,
    left_given: Seq<ImageFile>,
    right_given: Seq<ImageFile>,
    by: SortBy,
    order: SortOrder,
) -> bool {
    &&& is_sorted(left, by, order)
    &&& is_sorted(right, by, order)
    &&& is_sorted(tail, by, order)
    &&& all_before(left, tail, by, order)
    &&& all_before(right, tail, by, order)
    &&& forall|rank: (int, Seq<u8>)| #[trigger]
        of_rank(left, by, rank) + of_rank(right, by, rank) + of_rank(tail, by, rank) == of_rank(
            left_given,
            by,
            rank,
        ) + of_rank(right_given, by, rank)
}

/// Merging begins with both lists whole and an empty tail.
proof fn lemma_merging_begins(left: Seq<ImageFile>, right: Seq<ImageFile>, by: SortBy, order: SortOrder)
    requires
        is_sorted(left, by, order),
        is_sorted(right, by, order),
    ensures
        merging(left, right, Seq::empty(), left, right, by, order),
{
    assert forall|rank: (int, Seq<u8>)| #[trigger]
        of_rank(left, by, rank) + of_rank(right, by, rank) + of_rank(Seq::empty(), by, rank)
            == of_rank(left, by, rank) + of_rank(right, by, rank) by {
        lemma_of_rank_none(Seq::empty(), by, rank);
        assert(of_rank(left, by, rank) + of_rank(right, by, rank) + Seq::<ImageFile>::empty()
            =~= of_rank(left, by, rank) + of_rank(right, by, rank));
    }
}

/// Merging ends with the tail as the merged list.
proof fn lemma_merging_ends(
    tail: Seq<ImageFile>,
    left_given: Seq<ImageFile>,
    right_given: Seq<ImageFile>,
    by: SortBy,
    order: SortOrder,
)
    requires
        merging(Seq::empty(), Seq::empty(), tail, left_given, right_given, by, order),
    ensures
        forall|rank: (int, Seq<u8>)|
            #[trigger] of_rank(tail, by, rank) == of_rank(left_given, by, rank) + of_rank(
                right_given,
                by,
                rank,
            ),
{
    assert forall|rank: (int, Seq<u8>)|
        #[trigger] of_rank(tail, by, rank) == of_rank(left_given, by, rank) + of_rank(
            right_given,
            by,
            rank,
        ) by {
        lemma_of_rank_none(Seq::empty(), by, rank);
        assert(Seq::<ImageFile>::empty() + Seq::<ImageFile>::empty() + of_rank(tail, by, rank)
            =~= of_rank(tail, by, rank));
        assert(of_rank(Seq::empty(), by, rank) + of_rank(Seq::empty(), by, rank) + of_rank(
            tail,
            by,
            rank,
        ) == of_rank(left_given, by, rank) + of_rank(right_given, by, rank));
    }
}

/// An image put before a sorted tail that holds nothing before it leaves
/// the tail sorted.
proof fn lemma_tail_grows(image: ImageFile, tail: Seq<ImageFile>, by: SortBy, order: SortOrder)
    requires
        is_sorted(tail, by, order),
        all_before(seq![image], tail, by, order),
    ensures
        is_sorted(seq![image] + tail, by, order),
{
    let grown = seq![image] + tail;
    assert forall|i: int, j: int| 0 <= i < j < grown.len() implies !image_before(
        #[trigger] grown[j],
        #[trigger] grown[i],
        by,
        order,
    ) by {
        assert(grown[j] == tail[j - 1]);
        if i > 0 {
            assert(grown[i] == tail[i - 1]);
        } else {
            assert(seq![image][0] == image);
        }
    }
}

/// The last image of the left list goes to the tail where the right list is
/// empty or its last image comes before it.
proof fn lemma_merging_takes_left(
    left: Seq<ImageFile>,
    image: ImageFile,
    right: Seq<ImageFile>,
    tail: Seq<ImageFile>,
    left_given: Seq<ImageFile>,
    right_given: Seq<ImageFile>,
    by: SortBy,
    order: SortOrder,
)
    requires
        merging(left.push(image), right, tail, left_given, right_given, by, order),
        right.len() > 0 ==> image_before(right.last(), image, by, order),
    ensures
        merging(left, right, seq![image] + tail, left_given, right_given, by, order),
{
    let lows = left.push(image);
    let grown = seq![image] + tail;
    let own = sort_key_of(image, by);
    assert(lows[left.len() as int] == image);
    assert forall|i: int, j: int| 0 <= i < j < left.len() implies !image_before(
        #[trigger] left[j],
        #[trigger] left[i],
        by,
        order,
    ) by {
        assert(left[i] == lows[i] && left[j] == lows[j]);
    }
    assert forall|j: int| 0 <= j < tail.len() implies !image_before(
        #[trigger] tail[j],
        image,
        by,
        order,
    ) by {
        assert(!image_before(tail[j], lows[left.len() as int], by, order));
    }
    lemma_tail_grows(image, tail, by, order);
    assert forall|i: int, j: int| 0 <= i < left.len() && 0 <= j < grown.len() implies !image_before(
        #[trigger] grown[j],
        #[trigger] left[i],
        by,
        order,
    ) by {
        assert(left[i] == lows[i]);
        if j > 0 {
            assert(grown[j] == tail[j - 1]);
        } else {
            assert(!image_before(lows[left.len() as int], lows[i], by, order));
        }
    }
    // every image that is left on the right comes before `image`
    assert forall|i: int| 0 <= i < right.len() implies image_before(
        #[trigger] right[i],
        image,
        by,
        order,
    ) by {
        let last = right.last();
        if i < right.len() - 1 {
            assert(!image_before(right[right.len() - 1], right[i], by, order));
            if !image_before(right[i], image, by, order) {
                lemma_ranks_not_before_transitive(
                    sort_key_of(last, by),
                    sort_key_of(right[i], by),
                    own,
                    order,
                );
            }
        }
    }
    assert forall|i: int, j: int| 0 <= i < right.len() && 0 <= j < grown.len() implies !image_before(
        #[trigger] grown[j],
        #[trigger] right[i],
        by,
        order,
    ) by {
        if j > 0 {
            assert(grown[j] == tail[j - 1]);
        } else {
            assert(image_before(right[i], image, by, order));
            lemma_ranks_asymmetric(sort_key_of(right[i], by), own, order);
        }
    }
    assert forall|rank: (int, Seq<u8>)| #[trigger]
        of_rank(left, by, rank) + of_rank(right, by, rank) + of_rank(grown, by, rank) == of_rank(
            left_given,
            by,
            rank,
        ) + of_rank(right_given, by, rank) by {
        lemma_of_rank_push(left, image, by, rank);
        lemma_of_rank_cons(image, tail, by, rank);
        assert(of_rank(lows, by, rank) + of_rank(right, by, rank) + of_rank(tail, by, rank)
            == of_rank(left_given, by, rank) + of_rank(right_given, by, rank));
        if own == rank {
            assert forall|i: int| 0 <= i < right.len() implies sort_key_of(
                #[trigger] right[i],
                by,
            ) != rank by {
                assert(image_before(right[i], image, by, order));
                lemma_ranks_asymmetric(own, own, order);
            }
            lemma_of_rank_none(right, by, rank);
            assert(of_rank(left, by, rank) + Seq::<ImageFile>::empty() + (seq![image] + of_rank(
                tail,
                by,
                rank,
            )) =~= of_rank(left, by, rank).push(image) + Seq::<ImageFile>::empty() + of_rank(
                tail,
                by,
                rank,
            ));
        }
    }
}

/// The last image of the right list goes to the tail where the left list
/// is empty or its last image does not come after it.
proof fn lemma_merging_takes_right(
    left: Seq<ImageFile>,
    right: Seq<ImageFile>,
    image: ImageFile,
    tail: Seq<ImageFile>,
    left_given: Seq<ImageFile>,
    right_given: Seq<ImageFile>,
    by: SortBy,
    order: SortOrder,
)
    requires
        merging(left, right.push(image), tail, left_given, right_given, by, order),
        left.len() > 0 ==> !image_before(image, left.last(), by, order),
    ensures
        merging(left, right, seq![image] + tail, left_given, right_given, by, order),
{
    let highs = right.push(image);
    let grown = seq![image] + tail;
    let own = sort_key_of(image, by);
    assert(highs[right.len() as int] == image);
    assert forall|i: int, j: int| 0 <= i < j < right.len() implies !image_before(
        #[trigger] right[j],
        #[trigger] right[i],
        by,
        order,
    ) by {
        assert(right[i] == highs[i] && right[j] == highs[j]);
    }
    assert forall|j: int| 0 <= j < tail.len() implies !image_before(
        #[trigger] tail[j],
        image,
        by,
        order,
    ) by {
        assert(!image_before(tail[j], highs[right.len() as int], by, order));
    }
    lemma_tail_grows(image, tail, by, order);
    assert forall|i: int, j: int| 0 <= i < right.len() && 0 <= j < grown.len() implies !image_before(
        #[trigger] grown[j],
        #[trigger] right[i],
        by,
        order,
    ) by {
        assert(right[i] == highs[i]);
        if j > 0 {
            assert(grown[j] == tail[j - 1]);
        } else {
            assert(!image_before(highs[right.len() as int], highs[i], by, order));
        }
    }
    assert forall|i: int, j: int| 0 <= i < left.len() && 0 <= j < grown.len() implies !image_before(
        #[trigger] grown[j],
        #[trigger] left[i],
        by,
        order,
    ) by {
        if j > 0 {
            assert(grown[j] == tail[j - 1]);
        } else {
            let last = left.last();
            if i < left.len() - 1 {
                assert(!image_before(left[left.len() - 1], left[i], by, order));
                lemma_ranks_not_before_transitive(
                    own,
                    sort_key_of(last, by),
                    sort_key_of(left[i], by),
                    order,
                );
            }
        }
    }
    assert forall|rank: (int, Seq<u8>)| #[trigger]
        of_rank(left, by, rank) + of_rank(right, by, rank) + of_rank(grown, by, rank) == of_rank(
            left_given,
            by,
            rank,
        ) + of_rank(right_given, by, rank) by {
        lemma_of_rank_push(right, image, by, rank);
        lemma_of_rank_cons(image, tail, by, rank);
        assert(of_rank(left, by, rank) + of_rank(highs, by, rank) + of_rank(tail, by, rank)
            == of_rank(left_given, by, rank) + of_rank(right_given, by, rank));
        if own == rank {
            assert(of_rank(left, by, rank) + of_rank(right, by, rank) + (seq![image] + of_rank(
                tail,
                by,
                rank,
            )) =~= of_rank(left, by, rank) + of_rank(right, by, rank).push(image) + of_rank(
                tail,
                by,
                rank,
            ));
        }
    }
}

/// Merges two sorted lists into one. Of images of equal rank, those of
/// `left` come before those of `right`.
fn merge(left: Vec<ImageFile>, right: Vec<ImageFile>, by: &SortBy, order: &SortOrder) -> (merged:
    Vec<ImageFile>)
    requires
        is_sorted(left@, *by, *order),
        is_sorted(right@, *by, *order),
    ensures
        is_sorted(merged@, *by, *order),
        forall|rank: (int, Seq<u8>)|
            #[trigger] of_rank(merged@, *by, rank) == of_rank(left@, *by, rank) + of_rank(
                right@,
                *by,
                rank,
            ),
{
    let ghost left_given = left@;
    let ghost right_given = right@;
    let mut left = left;
    let mut right = right;
    // The end of the merged list, its last image first.
    let mut reversed: Vec<ImageFile> = Vec::new();
    let ghost mut tail: Seq<ImageFile> = Seq::empty();
    proof {
        lemma_merging_begins(left@, right@, *by, *order);
    }
    while left.len() > 0 || right.len() > 0
        invariant
            merging(left@, right@, tail, left_given, right_given, *by, *order),
            reversed@.len() == tail.len(),
            forall|i: int|
                0 <= i < tail.len() ==> #[trigger] reversed@[i] == tail[tail.len() - 1 - i],
        decreases left@.len() + right@.len(),
    {
        let ghost lows = left@;
        let ghost highs = right@;
        let ghost before = tail;
        let from_left = if right.len() == 0 {
            true
        } else if left.len() == 0 {
            false
        } else {
            image_precedes(&right[right.len() - 1], &left[left.len() - 1], by, order)
        };
        let image = if from_left {
            let image = left.pop().unwrap();
            proof {
                assert(lows =~= left@.push(image));
                lemma_merging_takes_left(
                    left@,
                    image,
                    highs,
                    before,
                    left_given,
                    right_given,
                    *by,
                    *order,
                );
            }
            image
        } else {
            let image = right.pop().unwrap();
            proof {
                assert(highs =~= right@.push(image));
                lemma_merging_takes_right(
                    lows,
                    right@,
                    image,
                    before,
                    left_given,
                    right_given,
                    *by,
                    *order,
                );
            }
            image
        };
        proof {
            tail = seq![image] + before;
            assert forall|i: int| 0 <= i < tail.len() implies #[trigger] reversed@.push(image)[i]
                == tail[tail.len() - 1 - i] by {
                if i < before.len() {
                    assert(reversed@[i] == before[before.len() - 1 - i]);
                }
            }
        }
        reversed.push(image);
    }
    proof {
        assert(left@ =~= Seq::<ImageFile>::empty() && right@ =~= Seq::<ImageFile>::empty());
        lemma_merging_ends(tail, left_given, right_given, *by, *order);
    }
    let mut merged: Vec<ImageFile> = Vec::new();
    while reversed.len() > 0
        invariant
            reversed@.len() + merged@.len() == tail.len(),
            forall|i: int|
                0 <= i < reversed@.len() ==> #[trigger] reversed@[i] == tail[tail.len() - 1 - i],
            merged@ == tail.take(merged@.len() as int),
        decreases reversed@.len(),
    {
        let image = reversed.pop().unwrap();
        merged.push(image);
        assert(merged@ =~= tail.take(merged@.len() as int));
    }
    assert(merged@ =~= tail);
    merged
}

/// Sorts a list by merging its sorted halves.
fn merge_sort(images: Vec<ImageFile>, by: &SortBy, order: &SortOrder) -> (sorted: Vec<ImageFile>)
    ensures
        is_sorted(sorted@, *by, *order),
        forall|rank: (int, Seq<u8>)|
            #[trigger] of_rank(sorted@, *by, rank) == of_rank(images@, *by, rank),
    decreases images@.len(),
{
    if images.len() <= 1 {
        return images;
    }
    let ghost given = images@;
    let mut left = images;
    let right = left.split_off(left.len() / 2);
    let ghost first_half = left@;
    let ghost second_half = right@;
    let left = merge_sort(left, by, order);
    let right = merge_sort(right, by, order);
    let merged = merge(left, right, by, order);
    proof {
        assert(given =~= first_half + second_half);
        assert forall|rank: (int, Seq<u8>)| #[trigger]
            of_rank(merged@, *by, rank) == of_rank(given, *by, rank) by {
            let same = |image: ImageFile| sort_key_of(image, *by) == rank;
            Seq::filter_distributes_over_add(first_half, second_half, same);
            assert(of_rank(left@, *by, rank) == of_rank(first_half, *by, rank));
            assert(of_rank(right@, *by, rank) == of_rank(second_half, *by, rank));
        }
    }
    merged
}

/// Sorts the images by the given key in the given direction. Images of
/// equal rank keep the order in which they stand.
pub fn sort_images(images: &mut Vec<ImageFile>, sort_by: &SortBy, sort_order: &SortOrder)
    ensures
        final(images)@ == stable_sorted(old(images)@, *sort_by, *sort_order),
        final(images)@.len() == old(images)@.len(),
        is_sorted(final(images)@, *sort_by, *sort_order),
        forall|rank: (int, Seq<u8>)|
            #[trigger] of_rank(final(images)@, *sort_by, rank) == of_rank(
                old(images)@,
                *sort_by,
                rank,
            ),
{
    let mut given: Vec<ImageFile> = Vec::new();
    core::mem::swap(images, &mut given);
    let ghost before = given@;
    let mut sorted = merge_sort(given, sort_by, sort_order);
    proof {
        lemma_stable_sort_is_unique(sorted@, before, *sort_by, *sort_order);
        lemma_stable_sorted(before, *sort_by, *sort_order);
    }
    core::mem::swap(images, &mut sorted);
}

} // verus!
