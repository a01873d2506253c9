use lofty::tag::{ItemKey, ItemValue, Tag, TagItem, TagType};
use mediavert::transplant::transplant;

fn source() -> Tag {
    let mut tag = Tag::new(TagType::Id3v2);
    tag.insert(TagItem::new(ItemKey::TrackTitle, ItemValue::Text("Mother".to_string())));
    tag.insert(TagItem::new(ItemKey::AlbumArtist, ItemValue::Text("Pink Floyd".to_string())));
    tag.insert(TagItem::new(ItemKey::TrackNumber, ItemValue::Text("5".to_string())));
    tag
}

fn items(tag: &Tag) -> Vec<TagItem> {
    tag.items().cloned().collect()
}

#[test]
fn same_type_copies_every_item() {
    let src = source();
    let out = transplant(&src, TagType::Id3v2);
    assert_eq!(out.tag_type(), TagType::Id3v2);
    assert_eq!(items(&out), items(&src));
}

#[test]
fn other_type_drops_unrepresentable_items() {
    let src = source();
    let out = transplant(&src, TagType::Id3v1);
    assert_eq!(out.tag_type(), TagType::Id3v1);
    let got = items(&out);
    assert_eq!(got.len(), 2);
    for item in &got {
        assert!(items(&src).contains(item));
    }
    assert!(got.iter().all(|i| *i.key() != ItemKey::AlbumArtist));
}

#[test]
fn other_type_keeps_representable_items() {
    let src = source();
    let out = transplant(&src, TagType::VorbisComments);
    assert_eq!(out.tag_type(), TagType::VorbisComments);
    assert_eq!(items(&out).len(), 3);
}

#[test]
fn other_type_keeps_every_item_of_a_key() {
    let mut src = Tag::new(TagType::Id3v2);
    src.push(TagItem::new(ItemKey::TrackTitle, ItemValue::Text("First".to_string())));
    src.push(TagItem::new(ItemKey::AlbumArtist, ItemValue::Text("Dropped".to_string())));
    src.push(TagItem::new(ItemKey::TrackTitle, ItemValue::Text("Second".to_string())));
    let out = transplant(&src, TagType::Id3v1);
    let got = items(&out);
    assert_eq!(got.len(), 2);
    assert_eq!(got[0].value(), &ItemValue::Text("First".to_string()));
    assert_eq!(got[1].value(), &ItemValue::Text("Second".to_string()));
}
