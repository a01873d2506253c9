//! Copying a resolved source tag onto a freshly produced file's tag type.

use vstd::prelude::*;

verus! {

#[verifier::external_type_specification]
#[verifier::external_body]
pub struct ExTag(lofty::tag::Tag);

#[verifier::external_type_specification]
#[verifier::external_body]
pub struct ExTagItem(lofty::tag::TagItem);

#[verifier::external_type_specification]
#[verifier::external_body]
pub struct ExTagType(lofty::tag::TagType);

/// Relies on `TagItem`'s derived `Clone`: the copy is the same key and value.
pub assume_specification[ <lofty::tag::TagItem as Clone>::clone ](i: &lofty::tag::TagItem) -> (r: lofty::tag::TagItem)
    ensures
        r == *i,
;

/// The items a tag holds, in order.
pub uninterp spec fn tag_items(t: lofty::tag::Tag) -> Seq<lofty::tag::TagItem>;

/// The native tag type a tag was made for.
pub uninterp spec fn tag_kind(t: lofty::tag::Tag) -> lofty::tag::TagType;

/// Relies on `lofty::tag::Tag::new`: an empty tag of the given type.
#[verifier::external_body]
fn new_tag(ty: lofty::tag::TagType) -> (r: lofty::tag::Tag)
    ensures
        tag_items(r) == Seq::<lofty::tag::TagItem>::empty(),
        tag_kind(r) == ty,
{
    lofty::tag::Tag::new(ty)
}

/// Relies on `lofty::tag::Tag::tag_type`: the type the tag was made for.
#[verifier::external_body]
pub(crate) fn tag_type_of(t: &lofty::tag::Tag) -> (r: lofty::tag::TagType)
    ensures
        r == tag_kind(*t),
{
    t.tag_type()
}

/// Relies on `TagType`'s derived `PartialEq`: its variants carry no data, so
/// two values are equal exactly when they are the same variant.
#[verifier::external_body]
fn same_type(a: lofty::tag::TagType, b: lofty::tag::TagType) -> (r: bool)
    ensures
        r == (a == b),
{
    a == b
}

/// Relies on `Tag`'s derived `Clone`: the copy holds the same items and type.
#[verifier::external_body]
fn clone_tag(t: &lofty::tag::Tag) -> (r: lofty::tag::Tag)
    ensures
        tag_items(r) == tag_items(*t),
        tag_kind(r) == tag_kind(*t),
{
    t.clone()
}

/// Relies on `lofty::tag::Tag::items` and `TagItem`'s derived `Clone`: a
/// copy of each item, in order.
#[verifier::external_body]
fn items_of(t: &lofty::tag::Tag) -> (r: Vec<lofty::tag::TagItem>)
    ensures
        r@ == tag_items(*t),
{
    t.items().cloned().collect()
}

/// Whether the item's key has a representation in the tag type (lofty's
/// `TagItem::re_map`, which looks at the item's key and the type alone).
pub uninterp spec fn key_maps(i: lofty::tag::TagItem, ty: lofty::tag::TagType) -> bool;

/// Relies on `lofty::tag::Tag::push`: when the item's key maps to the tag's
/// type (`TagItem::re_map`) the item is appended, items of the same key kept,
/// and `true` returned; otherwise the tag is left as it was and `false`
/// returned.
#[verifier::external_body]
fn push_item(t: &mut lofty::tag::Tag, item: lofty::tag::TagItem) -> (r: bool)
    ensures
        tag_kind(*final(t)) == tag_kind(*old(t)),
        r == key_maps(item, tag_kind(*old(t))),
        r ==> tag_items(*final(t)) == tag_items(*old(t)).push(item),
        !r ==> tag_items(*final(t)) == tag_items(*old(t)),
{
    t.push(item)
}

proof fn lemma_filter_within(
    s: Seq<lofty::tag::TagItem>,
    p: spec_fn(lofty::tag::TagItem) -> bool,
    x: lofty::tag::TagItem,
)
    requires
        s.filter(p).contains(x),
    ensures
        s.contains(x),
    decreases s.len(),
{
    reveal(Seq::filter);
    if s.len() > 0 {
        let sub = s.drop_last().filter(p);
        if x == s.last() {
            assert(s[s.len() - 1] == x);
        } else {
            let f = s.filter(p);
            let j = choose|j: int| 0 <= j < f.len() && f[j] == x;
            if p(s.last()) {
                assert(f == sub.push(s.last()));
                assert(j < sub.len());
                assert(sub[j] == x);
            } else {
                assert(sub[j] == x);
            }
            lemma_filter_within(s.drop_last(), p, x);
            let k = choose|k: int| 0 <= k < s.drop_last().len() && s.drop_last()[k] == x;
            assert(s[k] == x);
        }
    }
}

/// The tag to write onto a file whose native tag type is `target`.
///
/// When `source` already has that type it is copied whole, items the target
/// would not render included. Otherwise a new tag of the target type receives
/// the source's items one at a time, in order, and exactly those whose key the
/// type cannot represent are dropped: every item of the result is then an
/// item of the source.
pub fn transplant(source: &lofty::tag::Tag, target: lofty::tag::TagType) -> (r: lofty::tag::Tag)
    ensures
        tag_kind(r) == target,
        tag_kind(*source) == target ==> tag_items(r) == tag_items(*source),
        tag_kind(*source) != target ==> tag_items(r) == tag_items(*source).filter(
            |x: lofty::tag::TagItem| key_maps(x, target),
        ),
        forall|x: lofty::tag::TagItem| #[trigger]
            tag_items(r).contains(x) ==> tag_items(*source).contains(x),
{
    if same_type(tag_type_of(source), target) {
        return clone_tag(source);
    }
    let ghost p = |x: lofty::tag::TagItem| key_maps(x, target);
    let items = items_of(source);
    let mut tag = new_tag(target);
    let n = items.len();
    let mut i: usize = 0;
    proof {
        reveal(Seq::filter);
        assert(items@.take(0) =~= Seq::<lofty::tag::TagItem>::empty());
    }
    while i < n
        invariant
            n == items@.len(),
            i <= n,
            items@ == tag_items(*source),
            tag_kind(tag) == target,
            p == (|x: lofty::tag::TagItem| key_maps(x, target)),
            tag_items(tag) == items@.take(i as int).filter(p),
        decreases n - i,
    {
        let item = items[i].clone();
        let ok = push_item(&mut tag, item);
        proof {
            reveal(Seq::filter);
            let t1 = items@.take(i + 1);
            assert(t1.drop_last() =~= items@.take(i as int));
            assert(t1.last() == item);
            assert(ok == key_maps(item, target));
            assert(p(item) == key_maps(item, target));
            assert(t1.filter(p) == if p(t1.last()) {
                t1.drop_last().filter(p).push(t1.last())
            } else {
                t1.drop_last().filter(p)
            });
        }
        i = i + 1;
    }
    assert(items@.take(n as int) =~= items@);
    proof {
        assert forall|x: lofty::tag::TagItem| #[trigger]
            tag_items(tag).contains(x) implies tag_items(*source).contains(x) by {
            lemma_filter_within(tag_items(*source), p, x);
        }
    }
    tag
}

} // verus!
