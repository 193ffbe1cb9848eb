//! Track descriptions and content listings in DIDL-Lite, and the browse
//! response that wraps a listing.
//!
//! A listing is read in one pass. A `container` or `item` start tag opens a
//! new record; text and `res` attributes go to the record opened last. The
//! listing is taken to be flat: containers and items do not nest.
//!
//! A document that is not well-formed gives `MalformedXml`, never a partial
//! listing. Where there is more than one error, the one that reading meets
//! first is reported: a `size` that is no number comes before a fault that
//! follows it, and an error in the listing that a browse response wraps
//! comes before a fault in the response after it.

use crate::error::{result_view, UpnpError};
use crate::events::{
    attribute_values, collect_attribute_values, collect_texts, count_starts, document_reading,
    inside, last_attribute, last_of, last_or_empty, lemma_prefix_step, next_inside, opens,
    read_document, start_values, text_or_empty, texts_inside, Attribute, AttributeField,
    AttributeView, Event, EventView, Reading, ReadingView, TextField,
};
use crate::text::{contains, last_number, parse_last_number, text_contains, text_eq};
use crate::types::{Container, ContainerView, Item, ItemView, Metadata, MetadataView};
use vstd::prelude::*;

verus! {

/// The description of the track that a fragment is about: for each field
/// the last text in the element of its name, and the last `id` of an `item`
/// element. A field that the fragment does not hold is absent, the title
/// empty.
pub open spec fn spec_metadata(reading: ReadingView) -> Result<MetadataView, UpnpError> {
    if reading.fault {
        Err(UpnpError::MalformedXml)
    } else {
        Ok(
            MetadataView {
                title: last_or_empty(texts_inside(reading.events, "title"@)),
                artist: last_of(texts_inside(reading.events, "artist"@)),
                album: last_of(texts_inside(reading.events, "album"@)),
                album_art_uri: last_of(texts_inside(reading.events, "albumArtURI"@)),
                url: last_or_empty(start_values(reading.events, "item"@, "id"@)),
            },
        )
    }
}

/// The description of the track that a fragment is about, read in one pass;
/// `MalformedXml` where the fragment is not well-formed.
pub fn scan_metadata(reading: &Reading) -> (metadata: Result<Metadata, UpnpError>)
    ensures
        result_view(metadata) == spec_metadata(reading.deep_view()),
{
    if reading.fault {
        return Err(UpnpError::MalformedXml);
    }
    let events = &reading.events;
    let ghost all = events.deep_view();
    let mut title = TextField::new();
    let mut artist = TextField::new();
    let mut album = TextField::new();
    let mut album_art = TextField::new();
    let mut id = AttributeField::new();
    let mut i: usize = 0;
    while i < events.len()
        invariant
            i <= events.len(),
            all == events.deep_view(),
            title.tracks(all.take(i as int), "title"@),
            artist.tracks(all.take(i as int), "artist"@),
            album.tracks(all.take(i as int), "album"@),
            album_art.tracks(all.take(i as int), "albumArtURI"@),
            id.tracks(all.take(i as int), "item"@, "id"@),
        decreases events.len() - i,
    {
        proof {
            lemma_prefix_step(events, i as int);
        }
        title.feed(&events[i], "title");
        artist.feed(&events[i], "artist");
        album.feed(&events[i], "album");
        album_art.feed(&events[i], "albumArtURI");
        id.feed(&events[i], "item", "id");
        i += 1;
    }
    assert(all.take(events.len() as int) =~= all);
    Ok(
        Metadata {
            title: text_or_empty(title.last),
            artist: artist.last,
            album: album.last,
            album_art_uri: album_art.last,
            url: text_or_empty(id.last),
        },
    )
}

/// The description of the track that the DIDL-Lite fragment `xml` is about.
pub fn deserialize_metadata(xml: &str) -> (metadata: Result<Metadata, UpnpError>)
    ensures
        result_view(metadata) == spec_metadata(document_reading(xml@)),
{
    let reading = read_document(xml);
    scan_metadata(&reading)
}

/// A content listing by its characters.
pub struct ListingView {
    pub containers: Seq<ContainerView>,
    pub items: Seq<ItemView>,
}

/// The listing that holds `containers` and `items`.
pub open spec fn listing_view(containers: Vec<Container>, items: Vec<Item>) -> ListingView {
    ListingView { containers: containers.deep_view(), items: items.deep_view() }
}

/// The listing that holds nothing.
pub open spec fn empty_listing() -> ListingView {
    ListingView { containers: Seq::empty(), items: Seq::empty() }
}

/// A resource with this protocol descriptor can be played: the descriptor
/// names audio or video.
pub open spec fn is_playable(protocol_info: Seq<char>) -> bool {
    contains(protocol_info, "audio"@) || contains(protocol_info, "video"@)
}

/// The last of `values` that names audio or video.
pub open spec fn last_playable(values: Seq<Seq<char>>) -> Option<Seq<char>>
    decreases values.len(),
{
    if values.len() == 0 {
        None
    } else if is_playable(values.last()) {
        Some(values.last())
    } else {
        last_playable(values.drop_last())
    }
}

/// The container that a start tag with these attributes opens.
pub open spec fn new_container(attributes: Seq<AttributeView>) -> ContainerView {
    ContainerView {
        id: last_or_empty(attribute_values(attributes, "id"@)),
        parent_id: last_or_empty(attribute_values(attributes, "parentID"@)),
        title: Seq::empty(),
        object_class: None,
    }
}

/// The item that a start tag with these attributes opens.
pub open spec fn new_item(attributes: Seq<AttributeView>) -> ItemView {
    ItemView {
        id: last_or_empty(attribute_values(attributes, "id"@)),
        parent_id: last_or_empty(attribute_values(attributes, "parentID"@)),
        title: Seq::empty(),
        artist: None,
        album: None,
        album_art_uri: None,
        genre: None,
        object_class: None,
        protocol_info: Seq::empty(),
        size: None,
        duration: None,
        url: Seq::empty(),
    }
}

/// The largest size a resource can have.
pub open spec fn max_size() -> nat {
    0xffff_ffff_ffff_ffff
}

/// The size that the `size` attributes of a `res` tag give.
pub open spec fn resource_size(attributes: Seq<AttributeView>) -> Result<Option<nat>, UpnpError> {
    last_number(attribute_values(attributes, "size"@), max_size())
}

/// `item` after a `res` tag with these attributes: the protocol descriptor
/// is taken over where it names audio or video, size and duration where the
/// tag has them.
pub open spec fn with_resource(item: ItemView, attributes: Seq<AttributeView>) -> ItemView {
    ItemView {
        protocol_info: match last_playable(attribute_values(attributes, "protocolInfo"@)) {
            Some(info) => info,
            None => item.protocol_info,
        },
        size: match resource_size(attributes) {
            Ok(Some(size)) => Some(size as u64),
            _ => item.size,
        },
        duration: match last_of(attribute_values(attributes, "duration"@)) {
            Some(duration) => Some(duration),
            None => item.duration,
        },
        ..item
    }
}

/// `container` after `text`, which follows the events `before`.
pub open spec fn with_container_text(
    container: ContainerView,
    before: Seq<EventView>,
    text: Seq<char>,
) -> ContainerView {
    ContainerView {
        title: if inside(before, "title"@) {
            text
        } else {
            container.title
        },
        object_class: if inside(before, "class"@) {
            Some(text)
        } else {
            container.object_class
        },
        ..container
    }
}

/// Whether `text`, which follows the events `before`, becomes the URL of
/// `item`: it stands in a `res` element, the item has no URL yet, the text
/// holds `ip`, and the item's protocol descriptor names audio or video.
pub open spec fn adopts_url(item: ItemView, before: Seq<EventView>, text: Seq<char>, ip: Seq<char>) -> bool {
    &&& inside(before, "res"@)
    &&& item.url.len() == 0
    &&& contains(text, ip)
    &&& is_playable(item.protocol_info)
}

/// `item` after `text`, which follows the events `before`.
pub open spec fn with_item_text(
    item: ItemView,
    before: Seq<EventView>,
    text: Seq<char>,
    ip: Seq<char>,
) -> ItemView {
    ItemView {
        title: if inside(before, "title"@) {
            text
        } else {
            item.title
        },
        artist: if inside(before, "artist"@) {
            Some(text)
        } else {
            item.artist
        },
        album: if inside(before, "album"@) {
            Some(text)
        } else {
            item.album
        },
        album_art_uri: if inside(before, "albumArtURI"@) {
            Some(text)
        } else {
            item.album_art_uri
        },
        genre: if inside(before, "genre"@) {
            Some(text)
        } else {
            item.genre
        },
        object_class: if inside(before, "class"@) {
            Some(text)
        } else {
            item.object_class
        },
        url: if adopts_url(item, before, text, ip) {
            text
        } else {
            item.url
        },
        ..item
    }
}

/// `listing` after a start tag.
pub open spec fn listing_after_start(
    listing: ListingView,
    name: Seq<char>,
    attributes: Seq<AttributeView>,
) -> Result<ListingView, UpnpError> {
    if name == "container"@ {
        Ok(ListingView { containers: listing.containers.push(new_container(attributes)), ..listing })
    } else if name == "item"@ {
        Ok(ListingView { items: listing.items.push(new_item(attributes)), ..listing })
    } else if name == "res"@ {
        match resource_size(attributes) {
            Err(error) => Err(error),
            Ok(_) => if listing.items.len() > 0 {
                Ok(
                    ListingView {
                        items: listing.items.update(
                            listing.items.len() - 1,
                            with_resource(listing.items.last(), attributes),
                        ),
                        ..listing
                    },
                )
            } else {
                Ok(listing)
            },
        }
    } else {
        Ok(listing)
    }
}

/// `listing` after `text`, which follows the events `before`.
pub open spec fn listing_after_text(
    listing: ListingView,
    before: Seq<EventView>,
    text: Seq<char>,
    ip: Seq<char>,
) -> ListingView {
    ListingView {
        containers: if inside(before, "container"@) && listing.containers.len() > 0 {
            listing.containers.update(
                listing.containers.len() - 1,
                with_container_text(listing.containers.last(), before, text),
            )
        } else {
            listing.containers
        },
        items: if inside(before, "item"@) && listing.items.len() > 0 {
            listing.items.update(
                listing.items.len() - 1,
                with_item_text(listing.items.last(), before, text, ip),
            )
        } else {
            listing.items
        },
    }
}

/// `listing` after `event`, which follows the events `before`.
pub open spec fn listing_after(
    listing: ListingView,
    before: Seq<EventView>,
    event: EventView,
    ip: Seq<char>,
) -> Result<ListingView, UpnpError> {
    match event {
        EventView::Start { name, attributes } => listing_after_start(listing, name, attributes),
        EventView::Text(text) => Ok(listing_after_text(listing, before, text, ip)),
        _ => Ok(listing),
    }
}

/// The listing that these events give, for a device at `ip`: the state of
/// the scanner after the last event, or the first error on the way.
pub open spec fn spec_listing(events: Seq<EventView>, ip: Seq<char>) -> Result<
    ListingView,
    UpnpError,
>
    decreases events.len(),
{
    if events.len() == 0 {
        Ok(empty_listing())
    } else {
        match spec_listing(events.drop_last(), ip) {
            Err(error) => Err(error),
            Ok(listing) => listing_after(listing, events.drop_last(), events.last(), ip),
        }
    }
}

/// An error on the way is the result: what follows cannot mend it.
pub proof fn lemma_listing_error_stays(events: Seq<EventView>, ip: Seq<char>, n: int)
    requires
        0 <= n <= events.len(),
        spec_listing(events.take(n), ip) is Err,
    ensures
        spec_listing(events, ip) == spec_listing(events.take(n), ip),
    decreases events.len() - n,
{
    if n == events.len() {
        assert(events.take(n) =~= events);
    } else {
        assert(events.take(n + 1).drop_last() =~= events.take(n));
        lemma_listing_error_stays(events, ip, n + 1);
    }
}

/// An item's URL, where it has one, was taken from a resource that can be
/// played and that is served from `ip`.
pub open spec fn url_is_justified(item: ItemView, ip: Seq<char>) -> bool {
    item.url.len() > 0 ==> contains(item.url, ip) && is_playable(item.protocol_info)
}

/// What `last_playable` picks names audio or video.
pub proof fn lemma_last_playable(values: Seq<Seq<char>>)
    ensures
        last_playable(values) matches Some(info) ==> is_playable(info),
    decreases values.len(),
{
    if values.len() > 0 && !is_playable(values.last()) {
        lemma_last_playable(values.drop_last());
    }
}

/// In every listing, each item's URL is justified: no item ends up with the
/// URL of a resource that is neither audio nor video, or of one served from
/// elsewhere.
pub proof fn lemma_listing_urls_justified(events: Seq<EventView>, ip: Seq<char>)
    ensures
        spec_listing(events, ip) matches Ok(listing) ==> forall|i: int|
            0 <= i < listing.items.len() ==> url_is_justified(#[trigger] listing.items[i], ip),
    decreases events.len(),
{
    if events.len() > 0 {
        lemma_listing_urls_justified(events.drop_last(), ip);
        if let Ok(before) = spec_listing(events.drop_last(), ip) {
            if let Ok(listing) = spec_listing(events, ip) {
                match events.last() {
                    EventView::Start { name, attributes } => {
                        lemma_last_playable(attribute_values(attributes, "protocolInfo"@));
                        assert forall|i: int| 0 <= i < listing.items.len() implies url_is_justified(
                            #[trigger] listing.items[i],
                            ip,
                        ) by {
                            if i < before.items.len() {
                                assert(url_is_justified(before.items[i], ip));
                            }
                        }
                    },
                    EventView::Text(text) => {
                        assert forall|i: int| 0 <= i < listing.items.len() implies url_is_justified(
                            #[trigger] listing.items[i],
                            ip,
                        ) by {
                            assert(url_is_justified(before.items[i], ip));
                        }
                    },
                    _ => {},
                }
            }
        }
    }
}

/// An item's protocol descriptor, where it has one, names audio or video.
pub open spec fn protocol_is_playable(item: ItemView) -> bool {
    item.protocol_info.len() > 0 ==> is_playable(item.protocol_info)
}

/// In every listing, a protocol descriptor is recorded on an item only where
/// it names audio or video: each item's descriptor is empty or names one of
/// the two.
pub proof fn lemma_listing_protocols_playable(events: Seq<EventView>, ip: Seq<char>)
    ensures
        spec_listing(events, ip) matches Ok(listing) ==> forall|i: int|
            0 <= i < listing.items.len() ==> protocol_is_playable(#[trigger] listing.items[i]),
    decreases events.len(),
{
    if events.len() > 0 {
        lemma_listing_protocols_playable(events.drop_last(), ip);
        if let Ok(before) = spec_listing(events.drop_last(), ip) {
            if let Ok(listing) = spec_listing(events, ip) {
                match events.last() {
                    EventView::Start { name, attributes } => {
                        lemma_last_playable(attribute_values(attributes, "protocolInfo"@));
                        assert forall|i: int|
                            0 <= i < listing.items.len() implies protocol_is_playable(
                            #[trigger] listing.items[i],
                        ) by {
                            if i < before.items.len() {
                                assert(protocol_is_playable(before.items[i]));
                            }
                        }
                    },
                    EventView::Text(text) => {
                        assert forall|i: int|
                            0 <= i < listing.items.len() implies protocol_is_playable(
                            #[trigger] listing.items[i],
                        ) by {
                            assert(protocol_is_playable(before.items[i]));
                        }
                    },
                    _ => {},
                }
            }
        }
    }
}

/// A listing holds one container for each `container` start tag and one
/// item for each `item` start tag: no record is dropped, none is made up.
pub proof fn lemma_listing_counts(events: Seq<EventView>, ip: Seq<char>)
    ensures
        spec_listing(events, ip) matches Ok(listing) ==> {
            &&& listing.containers.len() == count_starts(events, "container"@)
            &&& listing.items.len() == count_starts(events, "item"@)
        },
    decreases events.len(),
{
    reveal_strlit("container");
    reveal_strlit("item");
    reveal_strlit("res");
    assert("container"@.len() == 9 && "item"@.len() == 4 && "res"@.len() == 3);
    if events.len() > 0 {
        lemma_listing_counts(events.drop_last(), ip);
        if let Ok(before) = spec_listing(events.drop_last(), ip) {
            if let Ok(listing) = spec_listing(events, ip) {
                match events.last() {
                    EventView::Start { name, attributes } => {
                        assert(listing_after_start(before, name, attributes) == Ok::<
                            ListingView,
                            UpnpError,
                        >(listing));
                        if name == "container"@ {
                            assert(!opens(events.last(), "item"@));
                        } else if name == "item"@ {
                            assert(!opens(events.last(), "container"@));
                        }
                    },
                    EventView::Text(text) => {
                        assert(listing == listing_after_text(before, events.drop_last(), text, ip));
                    },
                    _ => {},
                }
            }
        }
    }
}

/// Whether a resource with the protocol descriptor `protocol_info` can be
/// played.
pub fn playable(protocol_info: &str) -> (yes: bool)
    ensures
        yes == is_playable(protocol_info@),
{
    text_contains(protocol_info, "audio") || text_contains(protocol_info, "video")
}

fn find_last_playable(values: &Vec<String>) -> (found: Option<String>)
    ensures
        found.deep_view() == last_playable(values.deep_view()),
{
    let ghost all = values.deep_view();
    let mut found: Option<String> = None;
    let mut i: usize = 0;
    while i < values.len()
        invariant
            i <= values.len(),
            all == values.deep_view(),
            found.deep_view() == last_playable(all.take(i as int)),
        decreases values.len() - i,
    {
        assert(all.take(i + 1).drop_last() =~= all.take(i as int));
        assert(all.take(i + 1).last() == values[i as int]@);
        if playable(values[i].as_str()) {
            found = Some(values[i].clone());
        }
        i += 1;
    }
    assert(all.take(values.len() as int) =~= all);
    found
}

/// The flags of the listing scanner: for each element it tracks, whether one
/// of that name is open.
struct Flags {
    container: bool,
    item: bool,
    title: bool,
    artist: bool,
    album: bool,
    album_art: bool,
    genre: bool,
    class: bool,
    res: bool,
}

impl Flags {
    spec fn tracks(&self, events: Seq<EventView>) -> bool {
        &&& self.container == inside(events, "container"@)
        &&& self.item == inside(events, "item"@)
        &&& self.title == inside(events, "title"@)
        &&& self.artist == inside(events, "artist"@)
        &&& self.album == inside(events, "album"@)
        &&& self.album_art == inside(events, "albumArtURI"@)
        &&& self.genre == inside(events, "genre"@)
        &&& self.class == inside(events, "class"@)
        &&& self.res == inside(events, "res"@)
    }

    fn new() -> (flags: Flags)
        ensures
            flags.tracks(Seq::empty()),
    {
        Flags {
            container: false,
            item: false,
            title: false,
            artist: false,
            album: false,
            album_art: false,
            genre: false,
            class: false,
            res: false,
        }
    }

    fn feed(&mut self, event: &Event, Ghost(before): Ghost<Seq<EventView>>)
        requires
            old(self).tracks(before),
        ensures
            final(self).tracks(before.push(event.deep_view())),
    {
        assert(before.push(event.deep_view()).drop_last() =~= before);
        self.container = next_inside(self.container, event, "container");
        self.item = next_inside(self.item, event, "item");
        self.title = next_inside(self.title, event, "title");
        self.artist = next_inside(self.artist, event, "artist");
        self.album = next_inside(self.album, event, "album");
        self.album_art = next_inside(self.album_art, event, "albumArtURI");
        self.genre = next_inside(self.genre, event, "genre");
        self.class = next_inside(self.class, event, "class");
        self.res = next_inside(self.res, event, "res");
    }
}

fn open_container(attributes: &Vec<Attribute>) -> (container: Container)
    ensures
        container.deep_view() == new_container(attributes.deep_view()),
{
    Container {
        id: text_or_empty(last_attribute(attributes, "id")),
        parent_id: text_or_empty(last_attribute(attributes, "parentID")),
        title: String::new(),
        object_class: None,
    }
}

fn open_item(attributes: &Vec<Attribute>) -> (item: Item)
    ensures
        item.deep_view() == new_item(attributes.deep_view()),
{
    Item {
        id: text_or_empty(last_attribute(attributes, "id")),
        parent_id: text_or_empty(last_attribute(attributes, "parentID")),
        title: String::new(),
        artist: None,
        album: None,
        album_art_uri: None,
        genre: None,
        object_class: None,
        protocol_info: String::new(),
        size: None,
        duration: None,
        url: String::new(),
    }
}

fn take_resource(items: &mut Vec<Item>, attributes: &Vec<Attribute>) -> (done: Result<(), UpnpError>)
    ensures
        match done {
            Ok(_) => {
                &&& resource_size(attributes.deep_view()) is Ok
                &&& old(items).len() > 0 ==> final(items).deep_view() == old(items).deep_view().update(
                    old(items).len() - 1,
                    with_resource(old(items).deep_view().last(), attributes.deep_view()),
                )
                &&& old(items).len() == 0 ==> final(items).deep_view() == old(items).deep_view()
            },
            Err(error) => resource_size(attributes.deep_view()) == Err::<Option<nat>, UpnpError>(
                error,
            ),
        },
{
    let sizes = collect_attribute_values(attributes, "size");
    let size = match parse_last_number(&sizes, 0xffff_ffff_ffff_ffff) {
        Ok(size) => size,
        Err(error) => {
            return Err(error);
        },
    };
    if items.len() > 0 {
        let infos = collect_attribute_values(attributes, "protocolInfo");
        let info = find_last_playable(&infos);
        let duration = last_attribute(attributes, "duration");
        let last = items.len() - 1;
        let ghost before = items.deep_view();
        assert(before[last as int] == items[last as int].deep_view());
        if let Some(info) = info {
            items[last].protocol_info = info;
        }
        if let Some(size) = size {
            items[last].size = Some(size);
        }
        if let Some(duration) = duration {
            items[last].duration = Some(duration);
        }
        assert(items.deep_view() =~= before.update(
            last as int,
            with_resource(before.last(), attributes.deep_view()),
        ));
    }
    Ok(())
}

fn take_text(
    containers: &mut Vec<Container>,
    items: &mut Vec<Item>,
    flags: &Flags,
    text: &String,
    ip: &str,
    Ghost(before): Ghost<Seq<EventView>>,
)
    requires
        flags.tracks(before),
    ensures
        listing_view(*final(containers), *final(items)) == listing_after_text(
            listing_view(*old(containers), *old(items)),
            before,
            text@,
            ip@,
        ),
{
    let ghost containers_before = containers.deep_view();
    let ghost items_before = items.deep_view();
    if flags.container && containers.len() > 0 {
        let last = containers.len() - 1;
        assert(containers_before[last as int] == containers[last as int].deep_view());
        if flags.title {
            containers[last].title = text.clone();
        }
        if flags.class {
            containers[last].object_class = Some(text.clone());
        }
        assert(containers.deep_view() =~= containers_before.update(
            last as int,
            with_container_text(containers_before.last(), before, text@),
        ));
    }
    if flags.item && items.len() > 0 {
        let last = items.len() - 1;
        assert(items_before[last as int] == items[last as int].deep_view());
        let adopt = flags.res && items[last].url.as_str().is_empty() && text_contains(
            text.as_str(),
            ip,
        ) && playable(items[last].protocol_info.as_str());
        if flags.title {
            items[last].title = text.clone();
        }
        if flags.artist {
            items[last].artist = Some(text.clone());
        }
        if flags.album {
            items[last].album = Some(text.clone());
        }
        if flags.album_art {
            items[last].album_art_uri = Some(text.clone());
        }
        if flags.genre {
            items[last].genre = Some(text.clone());
        }
        if flags.class {
            items[last].object_class = Some(text.clone());
        }
        if adopt {
            items[last].url = text.clone();
        }
        assert(items.deep_view() =~= items_before.update(
            last as int,
            with_item_text(items_before.last(), before, text@, ip@),
        ));
    }
}

/// The listing that these events give, for a device at `ip`.
/// `InvalidNumber` where a `res` tag has a `size` that is no number. Every
/// item's URL is justified.
pub fn listing_from_events(events: &Vec<Event>, ip: &str) -> (listing: Result<
    (Vec<Container>, Vec<Item>),
    UpnpError,
>)
    ensures
        match listing {
            Ok((containers, items)) => {
                &&& spec_listing(events.deep_view(), ip@) == Ok::<ListingView, UpnpError>(
                    listing_view(containers, items),
                )
                &&& forall|i: int|
                    0 <= i < items.len() ==> url_is_justified(#[trigger] items.deep_view()[i], ip@)
            },
            Err(error) => spec_listing(events.deep_view(), ip@) == Err::<ListingView, UpnpError>(
                error,
            ),
        },
{
    let ghost all = events.deep_view();
    let mut containers: Vec<Container> = Vec::new();
    let mut items: Vec<Item> = Vec::new();
    let mut flags = Flags::new();
    let mut i: usize = 0;
    assert(listing_view(containers, items) == empty_listing()) by {
        assert(containers.deep_view() =~= Seq::<ContainerView>::empty());
        assert(items.deep_view() =~= Seq::<ItemView>::empty());
    }
    while i < events.len()
        invariant
            i <= events.len(),
            all == events.deep_view(),
            flags.tracks(all.take(i as int)),
            spec_listing(all.take(i as int), ip@) == Ok::<ListingView, UpnpError>(
                listing_view(containers, items),
            ),
        decreases events.len() - i,
    {
        let ghost before = all.take(i as int);
        let ghost listing = listing_view(containers, items);
        proof {
            lemma_prefix_step(events, i as int);
        }
        match &events[i] {
            Event::Start { name, attributes } => {
                if text_eq(name.as_str(), "container") {
                    containers.push(open_container(attributes));
                    assert(containers.deep_view() =~= listing.containers.push(
                        new_container(attributes.deep_view()),
                    ));
                } else if text_eq(name.as_str(), "item") {
                    items.push(open_item(attributes));
                    assert(items.deep_view() =~= listing.items.push(
                        new_item(attributes.deep_view()),
                    ));
                } else if text_eq(name.as_str(), "res") {
                    match take_resource(&mut items, attributes) {
                        Ok(_) => {},
                        Err(error) => {
                            proof {
                                lemma_listing_error_stays(all, ip@, i + 1);
                            }
                            return Err(error);
                        },
                    }
                }
            },
            Event::Text(text) => {
                take_text(&mut containers, &mut items, &flags, text, ip, Ghost(before));
            },
            _ => {},
        }
        flags.feed(&events[i], Ghost(before));
        i += 1;
    }
    proof {
        assert(all.take(events.len() as int) =~= all);
        lemma_listing_urls_justified(all, ip@);
        let listing = listing_view(containers, items);
        assert(spec_listing(all, ip@) == Ok::<ListingView, UpnpError>(listing));
        assert(listing.items.len() == items.len());
        assert forall|i: int| 0 <= i < items.len() implies url_is_justified(
            #[trigger] items.deep_view()[i],
            ip@,
        ) by {
            let found = spec_listing(all, ip@)->Ok_0;
            assert(found == listing);
            assert(url_is_justified(found.items[i], ip@));
        }
    }
    Ok((containers, items))
}

/// The listing that a document holds, for a device at `ip`: what its events
/// give, where the document is well-formed. An error that the events give
/// is met while reading, before a fault that follows it.
pub open spec fn spec_content_directory(reading: ReadingView, ip: Seq<char>) -> Result<
    ListingView,
    UpnpError,
> {
    match spec_listing(reading.events, ip) {
        Err(error) => Err(error),
        Ok(listing) => if reading.fault {
            Err(UpnpError::MalformedXml)
        } else {
            Ok(listing)
        },
    }
}

/// The listing that a document holds, for a device at `ip`. `InvalidNumber`
/// where a `res` tag has a `size` that is no number, `MalformedXml` where
/// the document is not well-formed; then no listing is returned. Every
/// item's URL is justified.
pub fn scan_content_directory(reading: &Reading, ip: &str) -> (listing: Result<
    (Vec<Container>, Vec<Item>),
    UpnpError,
>)
    ensures
        match listing {
            Ok((containers, items)) => {
                &&& spec_content_directory(reading.deep_view(), ip@) == Ok::<
                    ListingView,
                    UpnpError,
                >(listing_view(containers, items))
                &&& forall|i: int|
                    0 <= i < items.len() ==> url_is_justified(#[trigger] items.deep_view()[i], ip@)
            },
            Err(error) => spec_content_directory(reading.deep_view(), ip@) == Err::<
                ListingView,
                UpnpError,
            >(error),
        },
{
    match listing_from_events(&reading.events, ip) {
        Err(error) => Err(error),
        Ok(listing) => if reading.fault {
            Err(UpnpError::MalformedXml)
        } else {
            Ok(listing)
        },
    }
}

/// The listing that the DIDL-Lite document `xml` holds, for a device at
/// `ip`.
pub fn deserialize_content_directory(xml: &str, ip: &str) -> (listing: Result<
    (Vec<Container>, Vec<Item>),
    UpnpError,
>)
    ensures
        match listing {
            Ok((containers, items)) => {
                &&& spec_content_directory(document_reading(xml@), ip@) == Ok::<
                    ListingView,
                    UpnpError,
                >(listing_view(containers, items))
                &&& forall|i: int|
                    0 <= i < items.len() ==> url_is_justified(#[trigger] items.deep_view()[i], ip@)
            },
            Err(error) => spec_content_directory(document_reading(xml@), ip@) == Err::<
                ListingView,
                UpnpError,
            >(error),
        },
{
    let reading = read_document(xml);
    scan_content_directory(&reading, ip)
}

/// The listing that the last of the documents `texts` holds, where every
/// one of them holds a listing; the listing that holds nothing for no
/// document at all; else the error of the first document that holds none.
pub open spec fn last_listing(texts: Seq<Seq<char>>, ip: Seq<char>) -> Result<
    ListingView,
    UpnpError,
>
    decreases texts.len(),
{
    if texts.len() == 0 {
        Ok(empty_listing())
    } else {
        match last_listing(texts.drop_last(), ip) {
            Err(error) => Err(error),
            Ok(_) => spec_content_directory(document_reading(texts.last()), ip),
        }
    }
}

/// An error in one of the documents is the result.
pub proof fn lemma_last_listing_error_stays(texts: Seq<Seq<char>>, ip: Seq<char>, n: int)
    requires
        0 <= n <= texts.len(),
        last_listing(texts.take(n), ip) is Err,
    ensures
        last_listing(texts, ip) == last_listing(texts.take(n), ip),
    decreases texts.len() - n,
{
    if n == texts.len() {
        assert(texts.take(n) =~= texts);
    } else {
        assert(texts.take(n + 1).drop_last() =~= texts.take(n));
        lemma_last_listing_error_stays(texts, ip, n + 1);
    }
}

/// The listing that a browse response wraps: each text in a `Result`
/// element is a document of its own, read as it is met. An error in such a
/// document comes before a fault in the response after it.
pub open spec fn spec_browse(reading: ReadingView, ip: Seq<char>) -> Result<
    ListingView,
    UpnpError,
> {
    match last_listing(texts_inside(reading.events, "Result"@), ip) {
        Err(error) => Err(error),
        Ok(listing) => if reading.fault {
            Err(UpnpError::MalformedXml)
        } else {
            Ok(listing)
        },
    }
}

/// The listing that the last of the documents `texts` holds, as
/// `last_listing` has it. Every item's URL is justified.
pub fn listing_of_last(texts: &Vec<String>, ip: &str) -> (listing: Result<
    (Vec<Container>, Vec<Item>),
    UpnpError,
>)
    ensures
        match listing {
            Ok((containers, items)) => {
                &&& last_listing(texts.deep_view(), ip@) == Ok::<ListingView, UpnpError>(
                    listing_view(containers, items),
                )
                &&& forall|i: int|
                    0 <= i < items.len() ==> url_is_justified(#[trigger] items.deep_view()[i], ip@)
            },
            Err(error) => last_listing(texts.deep_view(), ip@) == Err::<ListingView, UpnpError>(
                error,
            ),
        },
{
    let ghost all = texts.deep_view();
    let mut containers: Vec<Container> = Vec::new();
    let mut items: Vec<Item> = Vec::new();
    let mut i: usize = 0;
    assert(listing_view(containers, items) == empty_listing()) by {
        assert(containers.deep_view() =~= Seq::<ContainerView>::empty());
        assert(items.deep_view() =~= Seq::<ItemView>::empty());
    }
    while i < texts.len()
        invariant
            i <= texts.len(),
            all == texts.deep_view(),
            last_listing(all.take(i as int), ip@) == Ok::<ListingView, UpnpError>(
                listing_view(containers, items),
            ),
            forall|k: int|
                0 <= k < items.len() ==> url_is_justified(#[trigger] items.deep_view()[k], ip@),
        decreases texts.len() - i,
    {
        assert(all.take(i + 1).drop_last() =~= all.take(i as int));
        assert(all.take(i + 1).last() == texts[i as int]@);
        match deserialize_content_directory(texts[i].as_str(), ip) {
            Ok((found_containers, found_items)) => {
                containers = found_containers;
                items = found_items;
            },
            Err(error) => {
                proof {
                    lemma_last_listing_error_stays(all, ip@, i + 1);
                }
                return Err(error);
            },
        }
        i += 1;
    }
    assert(all.take(texts.len() as int) =~= all);
    Ok((containers, items))
}

/// The listing that a browse response wraps. `MalformedXml` where the
/// response or the listing in it is not well-formed. Every item's URL is
/// justified.
pub fn scan_browse_response(reading: &Reading, ip: &str) -> (listing: Result<
    (Vec<Container>, Vec<Item>),
    UpnpError,
>)
    ensures
        match listing {
            Ok((containers, items)) => {
                &&& spec_browse(reading.deep_view(), ip@) == Ok::<ListingView, UpnpError>(
                    listing_view(containers, items),
                )
                &&& forall|i: int|
                    0 <= i < items.len() ==> url_is_justified(#[trigger] items.deep_view()[i], ip@)
            },
            Err(error) => spec_browse(reading.deep_view(), ip@) == Err::<ListingView, UpnpError>(
                error,
            ),
        },
{
    let texts = collect_texts(&reading.events, "Result");
    match listing_of_last(&texts, ip) {
        Err(error) => Err(error),
        Ok(listing) => if reading.fault {
            Err(UpnpError::MalformedXml)
        } else {
            Ok(listing)
        },
    }
}

/// The listing in the browse response `xml`, for a device at `ip`. The
/// response holds the listing as the text of its `Result` element, which is
/// read as a document of its own. A response without such text holds the
/// listing that holds nothing.
pub fn parse_browse_response(xml: &str, ip: &str) -> (listing: Result<
    (Vec<Container>, Vec<Item>),
    UpnpError,
>)
    ensures
        match listing {
            Ok((containers, items)) => {
                &&& spec_browse(document_reading(xml@), ip@) == Ok::<ListingView, UpnpError>(
                    listing_view(containers, items),
                )
                &&& forall|i: int|
                    0 <= i < items.len() ==> url_is_justified(#[trigger] items.deep_view()[i], ip@)
            },
            Err(error) => spec_browse(document_reading(xml@), ip@) == Err::<ListingView, UpnpError>(
                error,
            ),
        },
{
    let reading = read_document(xml);
    scan_browse_response(&reading, ip)
}

} // verus!
