use upnp_parser::events::{read_document, read_events, Event, Reading};
use upnp_parser::parser::response::{
    duration_seconds, position_seconds, scan_duration, scan_last_change, scan_position,
    scan_supported_protocols, scan_transport_info, scan_value, scan_volume,
};
use upnp_parser::parser::{
    parse_av_transport_uri_metadata, parse_current_play_mode, parse_current_track_metadata,
    parse_duration, parse_last_change, parse_position, parse_supported_protocols,
    parse_transport_info, parse_transport_state, parse_volume,
};
use upnp_parser::types::TransportInfo;
use upnp_parser::UpnpError;

fn soap(body: &str) -> String {
    format!(
        "<?xml version=\"1.0\" encoding=\"utf-8\"?>\n<s:Envelope xmlns:s=\"http://schemas.xmlsoap.org/soap/envelope/\" s:encodingStyle=\"http://schemas.xmlsoap.org/soap/encoding/\">\n  <s:Body>\n    {}\n  </s:Body>\n</s:Envelope>",
        body
    )
}

fn volume_response(text: &str) -> String {
    soap(&format!(
        "<u:GetVolumeResponse xmlns:u=\"urn:schemas-upnp-org:service:RenderingControl:1\"><CurrentVolume>{}</CurrentVolume></u:GetVolumeResponse>",
        text
    ))
}

fn duration_response(text: &str) -> String {
    soap(&format!(
        "<u:GetMediaInfoResponse xmlns:u=\"urn:schemas-upnp-org:service:AVTransport:1\"><NrTracks>1</NrTracks><MediaDuration>{}</MediaDuration><CurrentURI>http://192.168.1.10/a.mp3</CurrentURI></u:GetMediaInfoResponse>",
        text
    ))
}

fn position_response(text: &str) -> String {
    soap(&format!(
        "<u:GetPositionInfoResponse xmlns:u=\"urn:schemas-upnp-org:service:AVTransport:1\"><Track>1</Track><TrackDuration>0:03:25</TrackDuration><RelTime>{}</RelTime><AbsTime>NOT_IMPLEMENTED</AbsTime></u:GetPositionInfoResponse>",
        text
    ))
}

#[test]
fn volume_is_read_as_a_byte() {
    assert_eq!(parse_volume(&volume_response("37")), Ok(37u8));
    assert_eq!(parse_volume(&volume_response("0")), Ok(0u8));
    assert_eq!(parse_volume(&volume_response("255")), Ok(255u8));
}

#[test]
fn volume_above_a_byte_is_no_number() {
    assert_eq!(parse_volume(&volume_response("300")), Err(UpnpError::InvalidNumber));
    assert_eq!(parse_volume(&volume_response("256")), Err(UpnpError::InvalidNumber));
}

#[test]
fn volume_that_is_no_number_fails() {
    assert_eq!(parse_volume(&volume_response("loud")), Err(UpnpError::InvalidNumber));
    assert_eq!(parse_volume(&volume_response(" 37 ")), Err(UpnpError::InvalidNumber));
    assert_eq!(parse_volume(&volume_response("-1")), Err(UpnpError::InvalidNumber));
}

#[test]
fn volume_missing_is_incomplete() {
    let response = soap("<u:GetVolumeResponse xmlns:u=\"urn:schemas-upnp-org:service:RenderingControl:1\"></u:GetVolumeResponse>");
    assert_eq!(parse_volume(&response), Err(UpnpError::IncompleteResponse));
    assert_eq!(parse_volume(&volume_response("")), Err(UpnpError::IncompleteResponse));
}

#[test]
fn volume_last_occurrence_wins() {
    let response = soap("<r><CurrentVolume>10</CurrentVolume><CurrentVolume>20</CurrentVolume></r>");
    assert_eq!(parse_volume(&response), Ok(20u8));
}

#[test]
fn volume_every_occurrence_has_to_be_a_number() {
    let response = soap("<r><CurrentVolume>x</CurrentVolume><CurrentVolume>20</CurrentVolume></r>");
    assert_eq!(parse_volume(&response), Err(UpnpError::InvalidNumber));
}

#[test]
fn volume_is_matched_by_local_name() {
    let response = soap("<r xmlns:v=\"urn:v\"><v:CurrentVolume>12</v:CurrentVolume></r>");
    assert_eq!(parse_volume(&response), Ok(12u8));
}

#[test]
fn volume_of_a_document_that_is_not_well_formed_is_malformed() {
    assert_eq!(parse_volume("<r><CurrentVolume>42</CurrentVolume><broken"), Err(UpnpError::MalformedXml));
    assert_eq!(parse_volume("<r><CurrentVolume>42</Other></r>"), Err(UpnpError::MalformedXml));
    assert_eq!(parse_volume("<r><CurrentVolume>42</CurrentVolume>"), Err(UpnpError::MalformedXml));
    assert_eq!(parse_volume("<r><Other>1</Other>"), Err(UpnpError::MalformedXml));
    assert_eq!(parse_volume(""), Err(UpnpError::MalformedXml));
}

#[test]
fn volume_that_is_no_number_comes_before_a_later_fault() {
    assert_eq!(parse_volume("<r><CurrentVolume>loud</CurrentVolume><broken"), Err(UpnpError::InvalidNumber));
    assert_eq!(parse_volume("<r><CurrentVolume>300</CurrentVolume>"), Err(UpnpError::InvalidNumber));
}

fn reading(events: Vec<Event>, fault: bool) -> Reading {
    Reading { events, fault }
}

fn element(name: &str, text: &str) -> Vec<Event> {
    vec![
        Event::Start { name: name.to_string(), attributes: Vec::new() },
        Event::Text(text.to_string()),
        Event::End { name: name.to_string() },
    ]
}

#[test]
fn scanners_on_readings_written_by_hand() {
    assert_eq!(scan_volume(&reading(element("CurrentVolume", "7"), false)), Ok(7));
    assert_eq!(scan_volume(&reading(element("CurrentVolume", "7"), true)), Err(UpnpError::MalformedXml));
    assert_eq!(scan_volume(&reading(element("CurrentVolume", "x"), true)), Err(UpnpError::InvalidNumber));
    assert_eq!(scan_volume(&reading(Vec::new(), true)), Err(UpnpError::MalformedXml));
    assert_eq!(scan_duration(&reading(element("MediaDuration", "00:00:09"), false)), Ok(9));
    assert_eq!(scan_duration(&reading(element("MediaDuration", "00:00:09"), true)), Err(UpnpError::MalformedXml));
    assert_eq!(scan_duration(&reading(element("MediaDuration", "x"), true)), Err(UpnpError::MalformedXml));
    assert_eq!(scan_position(&reading(element("RelTime", "0:09"), false)), Ok(9));
    assert_eq!(scan_position(&reading(element("RelTime", "x"), true)), Err(UpnpError::MalformedXml));
    assert_eq!(scan_position(&reading(Vec::new(), true)), Err(UpnpError::MalformedXml));
    assert_eq!(scan_last_change(&reading(element("LastChange", "c"), false)), Ok(Some("c".to_string())));
    assert_eq!(scan_last_change(&reading(element("LastChange", "c"), true)), Err(UpnpError::MalformedXml));
    assert_eq!(scan_supported_protocols(&reading(element("Sink", "a,b"), true)), Err(UpnpError::MalformedXml));
    assert_eq!(scan_transport_info(&reading(element("CurrentSpeed", "1"), true)), Err(UpnpError::MalformedXml));
    assert_eq!(scan_value(&reading(Vec::new(), false), "TransportState"), Ok(None));
    assert_eq!(scan_value(&reading(Vec::new(), true), "TransportState"), Err(UpnpError::MalformedXml));
}

#[test]
fn responses_that_are_not_well_formed_are_malformed() {
    let cut = "<r><MediaDuration>01:02:03</MediaDuration><RelTime>0:05</RelTime><Sink>a,b</Sink><LastChange>c</LastChange><CurrentSpeed>1</CurrentSpeed><TransportState val=\"PLAYING\"/><CurrentPlayMode val=\"NORMAL\"/><AVTransportURIMetaData val=\"m\"/><CurrentTrackMetaData val=\"t\"/>";
    assert_eq!(parse_duration(cut), Err(UpnpError::MalformedXml));
    assert_eq!(parse_position(cut), Err(UpnpError::MalformedXml));
    assert_eq!(parse_supported_protocols(cut), Err(UpnpError::MalformedXml));
    assert_eq!(parse_last_change(cut), Err(UpnpError::MalformedXml));
    assert_eq!(parse_transport_info(cut), Err(UpnpError::MalformedXml));
    assert_eq!(parse_transport_state(cut), Err(UpnpError::MalformedXml));
    assert_eq!(parse_current_play_mode(cut), Err(UpnpError::MalformedXml));
    assert_eq!(parse_av_transport_uri_metadata(cut), Err(UpnpError::MalformedXml));
    assert_eq!(parse_current_track_metadata(cut), Err(UpnpError::MalformedXml));
    let whole = format!("{}</r>", cut);
    assert_eq!(parse_duration(&whole), Ok(3723));
    assert_eq!(parse_position(&whole), Ok(5));
    assert_eq!(parse_transport_state(&whole), Ok(Some("PLAYING".to_string())));
}

#[test]
fn fault_comes_before_what_is_known_at_the_end() {
    assert_eq!(parse_duration("<r><MediaDuration>1:2:3</MediaDuration>"), Err(UpnpError::MalformedXml));
    assert_eq!(parse_position("<r><RelTime>05</RelTime>"), Err(UpnpError::MalformedXml));
    assert_eq!(parse_duration("<r>"), Err(UpnpError::MalformedXml));
}

#[test]
fn scan_volume_agrees_with_parse_volume() {
    let response = volume_response("99");
    assert_eq!(scan_volume(&read_document(&response)), parse_volume(&response));
    assert_eq!(scan_volume(&reading(Vec::new(), false)), Err(UpnpError::IncompleteResponse));
}

#[test]
fn duration_of_two_digit_groups() {
    assert_eq!(parse_duration(&duration_response("01:02:03")), Ok(3723));
    assert_eq!(parse_duration(&duration_response("00:00:00")), Ok(0));
    assert_eq!(parse_duration(&duration_response("99:59:59")), Ok(99 * 3600 + 59 * 60 + 59));
}

#[test]
fn duration_without_padding_is_not_accepted() {
    assert_eq!(parse_duration(&duration_response("1:2:3")), Err(UpnpError::InvalidNumber));
    assert_eq!(parse_duration(&duration_response("0:03:25")), Err(UpnpError::InvalidNumber));
}

#[test]
fn duration_with_anything_but_six_digits_fails() {
    assert_eq!(parse_duration(&duration_response("01:02:03.500")), Err(UpnpError::InvalidNumber));
    assert_eq!(parse_duration(&duration_response("01:02:033")), Err(UpnpError::InvalidNumber));
    assert_eq!(parse_duration(&duration_response("+1:+2:+3")), Err(UpnpError::InvalidNumber));
    assert_eq!(parse_duration(&duration_response("NOT_IMPLEMENTED")), Err(UpnpError::InvalidNumber));
    assert_eq!(parse_duration(&duration_response(":")), Err(UpnpError::InvalidNumber));
}

#[test]
fn duration_missing_is_incomplete() {
    assert_eq!(parse_duration(&soap("<r/>")), Err(UpnpError::IncompleteResponse));
    assert_eq!(parse_duration(&duration_response("")), Err(UpnpError::IncompleteResponse));
}

#[test]
fn duration_seconds_on_plain_text() {
    assert_eq!(duration_seconds("01:02:03"), Ok(3723));
    assert_eq!(duration_seconds("010203"), Ok(3723));
    assert_eq!(duration_seconds("1:2:3"), Err(UpnpError::InvalidNumber));
    assert_eq!(duration_seconds(""), Err(UpnpError::InvalidNumber));
}

#[test]
fn scan_duration_agrees_with_parse_duration() {
    let response = duration_response("00:03:25");
    assert_eq!(scan_duration(&read_document(&response)), Ok(205));
    assert_eq!(parse_duration(&response), Ok(205));
}

#[test]
fn position_with_minutes_and_seconds() {
    assert_eq!(parse_position(&position_response("0:05")), Ok(5));
    assert_eq!(parse_position(&position_response("02:05")), Ok(125));
}

#[test]
fn position_with_hours() {
    assert_eq!(parse_position(&position_response("0:00:05")), Ok(5));
    assert_eq!(parse_position(&position_response("1:02:03")), Ok(3723));
    assert_eq!(parse_position(&position_response("01:02:03")), Ok(3723));
    assert_eq!(parse_position(&position_response("100:00:00")), Ok(360000));
}

#[test]
fn position_with_seconds_only_is_rejected() {
    assert_eq!(parse_position(&position_response("05")), Err(UpnpError::InvalidNumber));
}

#[test]
fn position_that_is_no_number_fails() {
    assert_eq!(parse_position(&position_response("NOT_IMPLEMENTED")), Err(UpnpError::InvalidNumber));
    assert_eq!(parse_position(&position_response("0:0x:05")), Err(UpnpError::InvalidNumber));
    assert_eq!(parse_position(&position_response("::5")), Err(UpnpError::InvalidNumber));
    assert_eq!(parse_position(&position_response("0:00:05.5")), Err(UpnpError::InvalidNumber));
}

#[test]
fn position_that_does_not_fit_fails() {
    assert_eq!(position_seconds("1193046:28:15"), Ok(u32::MAX));
    assert_eq!(position_seconds("1193046:28:16"), Err(UpnpError::InvalidNumber));
    assert_eq!(position_seconds("4294967295:0:0"), Err(UpnpError::InvalidNumber));
    assert_eq!(position_seconds("4294967296:0"), Err(UpnpError::InvalidNumber));
}

#[test]
fn position_looks_at_three_groups() {
    assert_eq!(position_seconds("1:02:03:04"), Ok(3723));
}

#[test]
fn position_missing_is_incomplete() {
    assert_eq!(parse_position(&soap("<r/>")), Err(UpnpError::IncompleteResponse));
}

#[test]
fn scan_position_agrees_with_parse_position() {
    let response = position_response("0:01:40");
    assert_eq!(scan_position(&read_document(&response)), Ok(100));
    assert_eq!(parse_position(&response), Ok(100));
}

#[test]
fn protocols_of_empty_sink_is_one_empty_text() {
    let response = soap("<u:GetProtocolInfoResponse xmlns:u=\"urn:schemas-upnp-org:service:ConnectionManager:1\"><Source></Source><Sink></Sink></u:GetProtocolInfoResponse>");
    assert_eq!(parse_supported_protocols(&response), Ok(vec![String::new()]));
    assert_eq!(parse_supported_protocols(&response).unwrap().len(), 1);
}

#[test]
fn protocols_without_sink_is_one_empty_text() {
    assert_eq!(parse_supported_protocols(&soap("<r/>")), Ok(vec![String::new()]));
}

#[test]
fn protocols_are_split_at_commas() {
    let response = soap("<r><Source>x</Source><Sink>http-get:*:audio/mpeg:*,http-get:*:video/mp4:*,http-get:*:image/jpeg:*</Sink></r>");
    assert_eq!(
        parse_supported_protocols(&response),
        Ok(vec![
            "http-get:*:audio/mpeg:*".to_string(),
            "http-get:*:video/mp4:*".to_string(),
            "http-get:*:image/jpeg:*".to_string(),
        ])
    );
    assert_eq!(scan_supported_protocols(&read_document(&response)).unwrap().len(), 3);
}

#[test]
fn last_change_is_returned_as_it_stands() {
    let event = "<e:propertyset xmlns:e=\"urn:schemas-upnp-org:event-1-0\"><e:property><LastChange>&lt;Event xmlns=\"urn:schemas-upnp-org:metadata-1-0/AVT/\"&gt;&lt;InstanceID val=\"0\"&gt;&lt;TransportState val=\"PLAYING\"/&gt;&lt;/InstanceID&gt;&lt;/Event&gt;</LastChange></e:property></e:propertyset>";
    assert_eq!(
        parse_last_change(event),
        Ok(Some(
            "<Event xmlns=\"urn:schemas-upnp-org:metadata-1-0/AVT/\"><InstanceID val=\"0\"><TransportState val=\"PLAYING\"/></InstanceID></Event>"
                .to_string()
        ))
    );
}

#[test]
fn last_change_absent_is_none() {
    assert_eq!(parse_last_change("<e:propertyset xmlns:e=\"urn:e\"/>"), Ok(None));
    assert_eq!(parse_last_change("not xml at all"), Err(UpnpError::MalformedXml));
}

const LAST_CHANGE: &str = "<Event xmlns=\"urn:schemas-upnp-org:metadata-1-0/AVT/\"><InstanceID val=\"0\"><TransportState val=\"PAUSED_PLAYBACK\"/><CurrentPlayMode val=\"NORMAL\"/><AVTransportURIMetaData val=\"&lt;DIDL-Lite/&gt;\"/><CurrentTrackMetaData val=\"&lt;item id=&quot;7&quot;/&gt;\"/></InstanceID></Event>";

#[test]
fn play_mode_is_the_val_attribute() {
    assert_eq!(parse_current_play_mode(LAST_CHANGE), Ok(Some("NORMAL".to_string())));
    assert_eq!(parse_current_play_mode("<Event/>"), Ok(None));
}

#[test]
fn transport_state_is_the_val_attribute() {
    assert_eq!(parse_transport_state(LAST_CHANGE), Ok(Some("PAUSED_PLAYBACK".to_string())));
    assert_eq!(parse_transport_state("<Event><TransportState other=\"x\"/></Event>"), Ok(None));
}

#[test]
fn transport_state_last_occurrence_wins() {
    let event = "<Event><TransportState val=\"PLAYING\"/><TransportState val=\"STOPPED\"/><TransportState/></Event>";
    assert_eq!(parse_transport_state(event), Ok(Some("STOPPED".to_string())));
}

#[test]
fn av_transport_uri_metadata_is_the_val_attribute() {
    assert_eq!(parse_av_transport_uri_metadata(LAST_CHANGE), Ok(Some("<DIDL-Lite/>".to_string())));
    assert_eq!(parse_av_transport_uri_metadata("<Event/>"), Ok(None));
}

#[test]
fn current_track_metadata_is_the_val_attribute() {
    assert_eq!(
        parse_current_track_metadata(LAST_CHANGE),
        Ok(Some("<item id=\"7\"/>".to_string()))
    );
    assert_eq!(parse_current_track_metadata("<Event/>"), Ok(None));
}

#[test]
fn transport_info_has_three_fields() {
    let response = soap("<u:GetTransportInfoResponse xmlns:u=\"urn:schemas-upnp-org:service:AVTransport:1\"><CurrentTransportState>PLAYING</CurrentTransportState><CurrentTransportStatus>OK</CurrentTransportStatus><CurrentSpeed>1</CurrentSpeed></u:GetTransportInfoResponse>");
    let expected = TransportInfo {
        current_transport_state: "PLAYING".to_string(),
        current_transport_status: "OK".to_string(),
        current_speed: "1".to_string(),
    };
    assert_eq!(parse_transport_info(&response), Ok(expected.clone()));
    assert_eq!(scan_transport_info(&read_document(&response)), Ok(expected));
}

#[test]
fn transport_info_defaults_to_empty_fields() {
    let response = soap("<r><CurrentTransportStatus>OK</CurrentTransportStatus></r>");
    let expected = TransportInfo {
        current_transport_state: String::new(),
        current_transport_status: "OK".to_string(),
        current_speed: String::new(),
    };
    assert_eq!(parse_transport_info(&response), Ok(expected));
    assert_eq!(parse_transport_info("<r/>"), Ok(TransportInfo::default()));
    assert_eq!(parse_transport_info(""), Err(UpnpError::MalformedXml));
}

#[test]
fn parsing_the_same_response_twice_gives_the_same() {
    let response = position_response("1:02:03");
    assert_eq!(parse_position(&response), parse_position(&response));
    let info = soap("<r><CurrentSpeed>1</CurrentSpeed></r>");
    assert_eq!(parse_transport_info(&info), parse_transport_info(&info));
    assert_eq!(read_events(&info), read_events(&info));
}
