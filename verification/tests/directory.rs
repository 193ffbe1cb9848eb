use upnp_parser::events::{read_document, Attribute, Event, Reading};
use upnp_parser::parser::directory::{
    listing_from_events, listing_of_last, playable, scan_browse_response,
    scan_content_directory, scan_metadata,
};
use upnp_parser::parser::{
    deserialize_content_directory, deserialize_metadata, parse_browse_response,
};
use upnp_parser::types::{Container, Item, Metadata};
use upnp_parser::UpnpError;

const IP: &str = "192.168.1.10";

fn didl(body: &str) -> String {
    format!(
        "<DIDL-Lite xmlns=\"urn:schemas-upnp-org:metadata-1-0/DIDL-Lite/\" xmlns:dc=\"http://purl.org/dc/elements/1.1/\" xmlns:upnp=\"urn:schemas-upnp-org:metadata-1-0/upnp/\">{}</DIDL-Lite>",
        body
    )
}

fn escape(text: &str) -> String {
    text.replace('&', "&amp;").replace('<', "&lt;").replace('>', "&gt;").replace('"', "&quot;")
}

fn browse_response(result: &str) -> String {
    format!(
        "<?xml version=\"1.0\"?><s:Envelope xmlns:s=\"http://schemas.xmlsoap.org/soap/envelope/\"><s:Body><u:BrowseResponse xmlns:u=\"urn:schemas-upnp-org:service:ContentDirectory:1\"><Result>{}</Result><NumberReturned>1</NumberReturned><TotalMatches>1</TotalMatches><UpdateID>0</UpdateID></u:BrowseResponse></s:Body></s:Envelope>",
        escape(result)
    )
}

const TWO_RESOURCES: &str = "<item id=\"64$1\" parentID=\"64\" restricted=\"1\"><dc:title>Song</dc:title><upnp:class>object.item.audioItem.musicTrack</upnp:class><res protocolInfo=\"http-get:*:image/jpeg:*\">http://192.168.1.10:8200/Thumbnails/22.jpg</res><res protocolInfo=\"http-get:*:audio/mpeg:*\" size=\"4096\" duration=\"0:03:25.000\">http://192.168.1.10:8200/MediaItems/22.mp3</res></item>";

fn song() -> Item {
    Item {
        id: "64$1".to_string(),
        parent_id: "64".to_string(),
        title: "Song".to_string(),
        artist: None,
        album: None,
        album_art_uri: None,
        genre: None,
        object_class: Some("object.item.audioItem.musicTrack".to_string()),
        protocol_info: "http-get:*:audio/mpeg:*".to_string(),
        size: Some(4096),
        duration: Some("0:03:25.000".to_string()),
        url: "http://192.168.1.10:8200/MediaItems/22.mp3".to_string(),
    }
}

#[test]
fn browse_takes_the_audio_resource_and_ignores_the_image() {
    let response = browse_response(&didl(TWO_RESOURCES));
    let (containers, items) = parse_browse_response(&response, IP).unwrap();
    assert!(containers.is_empty());
    assert_eq!(items, vec![song()]);
    assert_eq!(items[0].url, "http://192.168.1.10:8200/MediaItems/22.mp3");
}

#[test]
fn listing_takes_the_audio_resource_and_ignores_the_image() {
    let (containers, items) = deserialize_content_directory(&didl(TWO_RESOURCES), IP).unwrap();
    assert!(containers.is_empty());
    assert_eq!(items, vec![song()]);
}

#[test]
fn listing_keeps_the_first_playable_resource() {
    let body = "<item id=\"1\" parentID=\"0\"><res protocolInfo=\"http-get:*:audio/mpeg:*\">http://192.168.1.10/a.mp3</res><res protocolInfo=\"http-get:*:video/mp4:*\">http://192.168.1.10/a.mp4</res></item>";
    let (_, items) = deserialize_content_directory(&didl(body), IP).unwrap();
    assert_eq!(items.len(), 1);
    assert_eq!(items[0].url, "http://192.168.1.10/a.mp3");
    assert_eq!(items[0].protocol_info, "http-get:*:video/mp4:*");
}

#[test]
fn listing_ignores_a_resource_served_from_elsewhere() {
    let body = "<item id=\"1\" parentID=\"0\"><res protocolInfo=\"http-get:*:audio/mpeg:*\">http://10.0.0.9/a.mp3</res></item>";
    let (_, items) = deserialize_content_directory(&didl(body), IP).unwrap();
    assert_eq!(items[0].url, "");
    assert_eq!(items[0].protocol_info, "http-get:*:audio/mpeg:*");
}

#[test]
fn listing_ignores_a_resource_that_cannot_be_played() {
    let body = "<item id=\"1\" parentID=\"0\"><res protocolInfo=\"http-get:*:image/png:*\" size=\"7\">http://192.168.1.10/a.png</res></item>";
    let (_, items) = deserialize_content_directory(&didl(body), IP).unwrap();
    assert_eq!(items[0].url, "");
    assert_eq!(items[0].protocol_info, "");
    assert_eq!(items[0].size, Some(7));
}

#[test]
fn listing_with_containers_and_items_in_document_order() {
    let body = "<container id=\"1\" parentID=\"0\" childCount=\"3\"><dc:title>Music</dc:title><upnp:class>object.container.storageFolder</upnp:class></container><container id=\"2\" parentID=\"0\"><dc:title>Video</dc:title></container><item id=\"3\" parentID=\"0\"><dc:title>First</dc:title><upnp:artist>Artist</upnp:artist><upnp:album>Album</upnp:album><upnp:albumArtURI>http://192.168.1.10/art.jpg</upnp:albumArtURI><upnp:genre>Rock</upnp:genre></item><item id=\"4\" parentID=\"0\"><dc:title>Second</dc:title></item>";
    let (containers, items) = deserialize_content_directory(&didl(body), IP).unwrap();
    assert_eq!(
        containers,
        vec![
            Container {
                id: "1".to_string(),
                parent_id: "0".to_string(),
                title: "Music".to_string(),
                object_class: Some("object.container.storageFolder".to_string()),
            },
            Container {
                id: "2".to_string(),
                parent_id: "0".to_string(),
                title: "Video".to_string(),
                object_class: None,
            },
        ]
    );
    assert_eq!(items.len(), 2);
    assert_eq!(items[0].id, "3");
    assert_eq!(items[0].title, "First");
    assert_eq!(items[0].artist, Some("Artist".to_string()));
    assert_eq!(items[0].album, Some("Album".to_string()));
    assert_eq!(items[0].album_art_uri, Some("http://192.168.1.10/art.jpg".to_string()));
    assert_eq!(items[0].genre, Some("Rock".to_string()));
    assert_eq!(items[0].url, "");
    assert_eq!(items[1].id, "4");
    assert_eq!(items[1].title, "Second");
    assert_eq!(items[1].artist, None);
}

#[test]
fn listing_with_a_size_that_is_no_number_fails() {
    let body = "<item id=\"1\" parentID=\"0\"><res protocolInfo=\"http-get:*:audio/mpeg:*\" size=\"big\">http://192.168.1.10/a.mp3</res></item>";
    assert_eq!(deserialize_content_directory(&didl(body), IP), Err(UpnpError::InvalidNumber));
    assert_eq!(
        parse_browse_response(&browse_response(&didl(body)), IP),
        Err(UpnpError::InvalidNumber)
    );
    let body = "<item id=\"1\" parentID=\"0\"><res size=\"-5\"/></item>";
    assert_eq!(deserialize_content_directory(&didl(body), IP), Err(UpnpError::InvalidNumber));
}

#[test]
fn listing_with_a_resource_before_any_item() {
    let body = "<res protocolInfo=\"http-get:*:audio/mpeg:*\" size=\"5\" duration=\"1\">http://192.168.1.10/a.mp3</res>";
    assert_eq!(deserialize_content_directory(&didl(body), IP), Ok((Vec::new(), Vec::new())));
    let body = "<res size=\"x\"/>";
    assert_eq!(deserialize_content_directory(&didl(body), IP), Err(UpnpError::InvalidNumber));
}

#[test]
fn listing_of_nothing_is_empty() {
    assert_eq!(deserialize_content_directory(&didl(""), IP), Ok((Vec::new(), Vec::new())));
}

#[test]
fn scanner_routes_text_to_the_record_opened_last() {
    let start = |name: &str, attributes: &[(&str, &str)]| Event::Start {
        name: name.to_string(),
        attributes: attributes
            .iter()
            .map(|(n, v)| Attribute { name: n.to_string(), value: v.to_string() })
            .collect(),
    };
    let end = |name: &str| Event::End { name: name.to_string() };
    let events = vec![
        start("item", &[("id", "a"), ("id", "b")]),
        start("item", &[("parentID", "p")]),
        start("title", &[]),
        Event::Text("T".to_string()),
        end("title"),
        end("item"),
        start("title", &[]),
        Event::Text("outside".to_string()),
    ];
    let (containers, items) = listing_from_events(&events, IP).unwrap();
    assert!(containers.is_empty());
    assert_eq!(items.len(), 2);
    assert_eq!(items[0].id, "b");
    assert_eq!(items[0].title, "");
    assert_eq!(items[1].id, "");
    assert_eq!(items[1].parent_id, "p");
    assert_eq!(items[1].title, "T");
}

#[test]
fn playable_names_audio_or_video() {
    assert!(playable("http-get:*:audio/mpeg:*"));
    assert!(playable("http-get:*:video/mp4:DLNA.ORG_PN=AVC"));
    assert!(!playable("http-get:*:image/jpeg:*"));
    assert!(!playable(""));
    assert!(!playable("http-get:*:AUDIO/mpeg:*"));
}

#[test]
fn browse_without_result_is_empty() {
    let response = "<s:Envelope xmlns:s=\"http://schemas.xmlsoap.org/soap/envelope/\"><s:Body><u:BrowseResponse xmlns:u=\"urn:u\"><NumberReturned>0</NumberReturned></u:BrowseResponse></s:Body></s:Envelope>";
    assert_eq!(parse_browse_response(response, IP), Ok((Vec::new(), Vec::new())));
    assert_eq!(scan_browse_response(&read_document(response), IP), Ok((Vec::new(), Vec::new())));
}

#[test]
fn browse_reads_the_result_as_a_document_of_its_own() {
    let body = "<container id=\"1\" parentID=\"0\"><dc:title>A &amp; B</dc:title></container>";
    let response = browse_response(&didl(body));
    let (containers, items) = parse_browse_response(&response, IP).unwrap();
    assert!(items.is_empty());
    assert_eq!(containers.len(), 1);
    assert_eq!(containers[0].title, "A & B");
}

#[test]
fn last_of_several_listings_counts() {
    let first = didl("<item id=\"1\" parentID=\"0\"/>");
    let second = didl("<container id=\"2\" parentID=\"0\"/>");
    let (containers, items) = listing_of_last(&vec![first.clone(), second], IP).unwrap();
    assert_eq!(containers.len(), 1);
    assert!(items.is_empty());
    let broken = didl("<item id=\"1\" parentID=\"0\"><res size=\"x\"/></item>");
    assert_eq!(listing_of_last(&vec![broken, first], IP), Err(UpnpError::InvalidNumber));
    assert_eq!(listing_of_last(&Vec::new(), IP), Ok((Vec::new(), Vec::new())));
}

#[test]
fn metadata_of_one_track() {
    let fragment = didl("<item id=\"0$1$2\" parentID=\"0$1\" restricted=\"1\"><dc:title>Title</dc:title><upnp:artist>Artist</upnp:artist><upnp:album>Album</upnp:album><upnp:albumArtURI>http://192.168.1.10/art.jpg</upnp:albumArtURI><res protocolInfo=\"http-get:*:audio/mpeg:*\">http://192.168.1.10/a.mp3</res></item>");
    let expected = Metadata {
        title: "Title".to_string(),
        artist: Some("Artist".to_string()),
        album: Some("Album".to_string()),
        album_art_uri: Some("http://192.168.1.10/art.jpg".to_string()),
        url: "0$1$2".to_string(),
    };
    assert_eq!(deserialize_metadata(&fragment), Ok(expected.clone()));
    assert_eq!(scan_metadata(&read_document(&fragment)), Ok(expected));
}

#[test]
fn metadata_of_nothing_has_an_empty_title() {
    let expected = Metadata {
        title: String::new(),
        artist: None,
        album: None,
        album_art_uri: None,
        url: String::new(),
    };
    assert_eq!(deserialize_metadata(&didl("")), Ok(expected));
    assert_eq!(deserialize_metadata(""), Err(UpnpError::MalformedXml));
}

#[test]
fn listing_cut_short_is_malformed() {
    let cut = "<D><item id='1' parentID='0'><title>T</title>";
    assert_eq!(deserialize_content_directory(cut, "10.0.0.2"), Err(UpnpError::MalformedXml));
    let reading = read_document(cut);
    assert!(reading.fault);
    assert_eq!(listing_from_events(&reading.events, "10.0.0.2").unwrap().1.len(), 1);
    assert_eq!(scan_content_directory(&reading, "10.0.0.2"), Err(UpnpError::MalformedXml));
    let whole = "<D><item id='1' parentID='0'><title>T</title></item></D>";
    let (_, items) = deserialize_content_directory(whole, "10.0.0.2").unwrap();
    assert_eq!(items.len(), 1);
    assert_eq!(items[0].title, "T");
}

#[test]
fn listing_that_is_no_document_is_malformed() {
    assert_eq!(deserialize_content_directory("", IP), Err(UpnpError::MalformedXml));
    assert_eq!(deserialize_content_directory("no xml", IP), Err(UpnpError::MalformedXml));
    assert_eq!(deserialize_content_directory("<a></b>", IP), Err(UpnpError::MalformedXml));
    assert_eq!(
        scan_content_directory(&Reading { events: Vec::new(), fault: true }, IP),
        Err(UpnpError::MalformedXml)
    );
    assert_eq!(
        scan_content_directory(&Reading { events: Vec::new(), fault: false }, IP),
        Ok((Vec::new(), Vec::new()))
    );
}

#[test]
fn size_that_is_no_number_comes_before_a_later_fault() {
    let cut = "<D><item id='1' parentID='0'><res size='big'>x</res>";
    assert_eq!(deserialize_content_directory(cut, IP), Err(UpnpError::InvalidNumber));
}

#[test]
fn browse_with_a_listing_that_is_not_well_formed_is_malformed() {
    let response = browse_response("<DIDL-Lite><item id=\"1\" parentID=\"0\">");
    assert_eq!(parse_browse_response(&response, IP), Err(UpnpError::MalformedXml));
    let response = browse_response("no listing");
    assert_eq!(parse_browse_response(&response, IP), Err(UpnpError::MalformedXml));
}

#[test]
fn browse_response_that_is_not_well_formed_is_malformed() {
    let whole = browse_response(&didl(TWO_RESOURCES));
    let cut = &whole[..whole.len() - "</s:Envelope>".len()];
    assert_eq!(parse_browse_response(cut, IP), Err(UpnpError::MalformedXml));
    assert_eq!(parse_browse_response("", IP), Err(UpnpError::MalformedXml));
    let bad_size = browse_response(&didl("<item id=\"1\" parentID=\"0\"><res size=\"x\"/></item>"));
    let cut = &bad_size[..bad_size.len() - "</s:Envelope>".len()];
    assert_eq!(parse_browse_response(cut, IP), Err(UpnpError::InvalidNumber));
}

#[test]
fn metadata_cut_short_is_malformed() {
    let cut = "<DIDL-Lite><item id=\"7\"><title>T</title>";
    assert_eq!(deserialize_metadata(cut), Err(UpnpError::MalformedXml));
}

#[test]
fn parsing_the_same_listing_twice_gives_the_same() {
    let response = browse_response(&didl(TWO_RESOURCES));
    assert_eq!(parse_browse_response(&response, IP), parse_browse_response(&response, IP));
    let fragment = didl(TWO_RESOURCES);
    assert_eq!(deserialize_metadata(&fragment), deserialize_metadata(&fragment));
}
