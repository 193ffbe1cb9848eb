//! The fields of SOAP and eventing response bodies.
//!
//! Each parser reads the events of the body once and keeps what stands in or
//! on the element it looks for. Where an element repeats, its last
//! occurrence counts.
//!
//! A body that is not well-formed gives `MalformedXml`, never a value. Where
//! there is more than one error, the one that reading meets first is
//! reported: a number that is judged as it is read (a volume) and is bad
//! comes before a fault that follows it; the fault comes before what is only
//! known once the body has ended, which is that an element is missing and
//! what the last text of an element writes.

use crate::error::{result_view, UpnpError};
use crate::events::{
    collect_texts, document_reading, last_of, last_or_empty, last_start_attribute,
    last_text_inside, lemma_prefix_step, read_document, start_values, text_or_empty,
    texts_inside, Reading, ReadingView, TextField,
};
use crate::text::{
    all_digits, digits_value, is_digit, last_number, parse_digits, parse_last_number,
    parse_unsigned, split, split_text, strip_char, unsigned_decimal, without,
};
use crate::types::{TransportInfo, TransportInfoView};
use vstd::prelude::*;

verus! {

/// The volume that a response reports: every text in a `CurrentVolume`
/// element has to write a number from 0 to 255, and the last one counts. A
/// text that writes none is met while reading, before a fault that follows
/// it; that there is no such text is known only at the end.
pub open spec fn spec_volume(reading: ReadingView) -> Result<u8, UpnpError> {
    match last_number(texts_inside(reading.events, "CurrentVolume"@), 255) {
        Err(error) => Err(error),
        Ok(found) => if reading.fault {
            Err(UpnpError::MalformedXml)
        } else {
            match found {
                Some(volume) => Ok(volume as u8),
                None => Err(UpnpError::IncompleteResponse),
            }
        },
    }
}

/// The volume that a response reports: the number in its last
/// `CurrentVolume` element. `InvalidNumber` where such an element holds
/// anything but a number from 0 to 255, `MalformedXml` where the response
/// is not well-formed, `IncompleteResponse` where there is no such element
/// with text.
pub fn scan_volume(reading: &Reading) -> (volume: Result<u8, UpnpError>)
    ensures
        volume == spec_volume(reading.deep_view()),
{
    let texts = collect_texts(&reading.events, "CurrentVolume");
    match parse_last_number(&texts, 255) {
        Err(error) => Err(error),
        Ok(found) => if reading.fault {
            Err(UpnpError::MalformedXml)
        } else {
            match found {
                Some(volume) => Ok(volume as u8),
                None => Err(UpnpError::IncompleteResponse),
            }
        },
    }
}

/// The volume that the response `xml_root` reports.
pub fn parse_volume(xml_root: &str) -> (volume: Result<u8, UpnpError>)
    ensures
        volume == spec_volume(document_reading(xml_root@)),
{
    let reading = read_document(xml_root);
    scan_volume(&reading)
}

/// The seconds that a duration `HH:MM:SS` writes. The colons are taken out
/// first, wherever they stand; what is left has to be six decimal digits,
/// two each for hours, minutes and seconds.
pub open spec fn duration_of(text: Seq<char>) -> Option<nat> {
    let digits = without(text, ':');
    if digits.len() == 6 && all_digits(digits) {
        Some(
            digits_value(digits.subrange(0, 2)) * 3600 + digits_value(digits.subrange(2, 4)) * 60
                + digits_value(digits.subrange(4, 6)),
        )
    } else {
        None
    }
}

/// Two digits write a number below one hundred.
pub proof fn lemma_two_digits(digits: Seq<char>)
    requires
        digits.len() == 2,
        all_digits(digits),
    ensures
        digits_value(digits) <= 99,
{
    reveal_with_fuel(digits_value, 3);
    assert(is_digit(digits[0]) && is_digit(digits[1]));
    assert(digits.drop_last().last() == digits[0]);
}

/// Six characters are digits exactly if those of each of the three pairs
/// are.
proof fn lemma_digit_groups(digits: Seq<char>)
    requires
        digits.len() == 6,
    ensures
        all_digits(digits) <==> all_digits(digits.subrange(0, 2)) && all_digits(
            digits.subrange(2, 4),
        ) && all_digits(digits.subrange(4, 6)),
{
    let a = digits.subrange(0, 2);
    let b = digits.subrange(2, 4);
    let c = digits.subrange(4, 6);
    if all_digits(a) && all_digits(b) && all_digits(c) {
        assert forall|i: int| 0 <= i < digits.len() implies is_digit(#[trigger] digits[i]) by {
            if i < 2 {
                assert(a[i] == digits[i]);
            } else if i < 4 {
                assert(b[i - 2] == digits[i]);
            } else {
                assert(c[i - 4] == digits[i]);
            }
        }
    }
    if all_digits(digits) {
        assert forall|i: int| 0 <= i < 2 implies is_digit(#[trigger] a[i]) by {
            assert(a[i] == digits[i]);
        }
        assert forall|i: int| 0 <= i < 2 implies is_digit(#[trigger] b[i]) by {
            assert(b[i] == digits[i + 2]);
        }
        assert forall|i: int| 0 <= i < 2 implies is_digit(#[trigger] c[i]) by {
            assert(c[i] == digits[i + 4]);
        }
    }
}

/// The seconds that the duration `text` writes, as `duration_of` has it;
/// `InvalidNumber` for any other text.
pub fn duration_seconds(text: &str) -> (seconds: Result<u32, UpnpError>)
    ensures
        match seconds {
            Ok(s) => duration_of(text@) == Some(s as nat),
            Err(error) => error == UpnpError::InvalidNumber && duration_of(text@) is None,
        },
{
    let digits = strip_char(text, ':');
    if digits.len() != 6 {
        return Err(UpnpError::InvalidNumber);
    }
    proof {
        lemma_digit_groups(digits@);
        if all_digits(digits@) {
            lemma_two_digits(digits@.subrange(0, 2));
            lemma_two_digits(digits@.subrange(2, 4));
            lemma_two_digits(digits@.subrange(4, 6));
        }
    }
    let hours = parse_digits(&digits, 0, 2, 99);
    let minutes = parse_digits(&digits, 2, 4, 99);
    let seconds = parse_digits(&digits, 4, 6, 99);
    match (hours, minutes, seconds) {
        (Some(h), Some(m), Some(s)) => Ok((h * 3600 + m * 60 + s) as u32),
        _ => Err(UpnpError::InvalidNumber),
    }
}

/// The duration that a response reports: what the last text in a
/// `MediaDuration` element writes.
pub open spec fn spec_duration(reading: ReadingView) -> Result<u32, UpnpError> {
    if reading.fault {
        Err(UpnpError::MalformedXml)
    } else {
        match last_of(texts_inside(reading.events, "MediaDuration"@)) {
            None => Err(UpnpError::IncompleteResponse),
            Some(text) => match duration_of(text) {
                Some(seconds) => Ok(seconds as u32),
                None => Err(UpnpError::InvalidNumber),
            },
        }
    }
}

/// The duration, in seconds, that a response reports: what the last text in
/// a `MediaDuration` element writes. `MalformedXml` where the response is
/// not well-formed, `IncompleteResponse` where there is no such text,
/// `InvalidNumber` where it is no duration.
pub fn scan_duration(reading: &Reading) -> (seconds: Result<u32, UpnpError>)
    ensures
        seconds == spec_duration(reading.deep_view()),
{
    if reading.fault {
        return Err(UpnpError::MalformedXml);
    }
    match last_text_inside(&reading.events, "MediaDuration") {
        None => Err(UpnpError::IncompleteResponse),
        Some(text) => duration_seconds(text.as_str()),
    }
}

/// The duration, in seconds, that the response `xml_root` reports.
pub fn parse_duration(xml_root: &str) -> (seconds: Result<u32, UpnpError>)
    ensures
        seconds == spec_duration(document_reading(xml_root@)),
{
    let reading = read_document(xml_root);
    scan_duration(&reading)
}

/// The largest number of seconds that a position can stand for.
pub open spec fn max_seconds() -> nat {
    0xffff_ffff
}

/// The seconds that a position writes. The text is split at its colons. Two
/// groups are minutes and seconds, three are hours, minutes and seconds;
/// groups after the third are not looked at. A text without a colon is no
/// position. Each group has to write an unsigned number, and the seconds in
/// all must not exceed `max_seconds`.
pub open spec fn position_of(text: Seq<char>) -> Option<nat> {
    let groups = split(text, ':');
    if groups.len() < 2 {
        None
    } else {
        let shift: int = if groups.len() == 2 {
            0
        } else {
            1
        };
        let hours = if groups.len() == 2 {
            Some(0nat)
        } else {
            unsigned_decimal(groups[0], max_seconds())
        };
        let minutes = unsigned_decimal(groups[shift], max_seconds());
        let seconds = unsigned_decimal(groups[shift + 1], max_seconds());
        if hours is Some && minutes is Some && seconds is Some && hours.unwrap() * 3600
            + minutes.unwrap() * 60 + seconds.unwrap() <= max_seconds() {
            Some(hours.unwrap() * 3600 + minutes.unwrap() * 60 + seconds.unwrap())
        } else {
            None
        }
    }
}

/// The seconds that the position `text` writes, as `position_of` has it;
/// `InvalidNumber` for any other text.
pub fn position_seconds(text: &str) -> (seconds: Result<u32, UpnpError>)
    ensures
        match seconds {
            Ok(s) => position_of(text@) == Some(s as nat),
            Err(error) => error == UpnpError::InvalidNumber && position_of(text@) is None,
        },
{
    let groups = split_text(text, ':');
    let ghost all = groups.deep_view();
    if groups.len() < 2 {
        return Err(UpnpError::InvalidNumber);
    }
    let shift: usize = if groups.len() == 2 {
        0
    } else {
        1
    };
    assert(all[0] == groups[0]@);
    assert(all[shift as int] == groups[shift as int]@);
    assert(all[shift + 1] == groups[shift + 1]@);
    let hours: Option<u64> = if groups.len() == 2 {
        Some(0)
    } else {
        parse_unsigned(groups[0].as_str(), 0xffff_ffff)
    };
    let minutes = parse_unsigned(groups[shift].as_str(), 0xffff_ffff);
    let seconds = parse_unsigned(groups[shift + 1].as_str(), 0xffff_ffff);
    match (hours, minutes, seconds) {
        (Some(h), Some(m), Some(s)) => {
            let total: u64 = h * 3600 + m * 60 + s;
            if total <= 0xffff_ffff {
                Ok(total as u32)
            } else {
                Err(UpnpError::InvalidNumber)
            }
        },
        _ => Err(UpnpError::InvalidNumber),
    }
}

/// The position that a response reports: what the last text in a `RelTime`
/// element writes.
pub open spec fn spec_position(reading: ReadingView) -> Result<u32, UpnpError> {
    if reading.fault {
        Err(UpnpError::MalformedXml)
    } else {
        match last_of(texts_inside(reading.events, "RelTime"@)) {
            None => Err(UpnpError::IncompleteResponse),
            Some(text) => match position_of(text) {
                Some(seconds) => Ok(seconds as u32),
                None => Err(UpnpError::InvalidNumber),
            },
        }
    }
}

/// The position, in seconds, that a response reports: what the last text in
/// a `RelTime` element writes. `MalformedXml` where the response is not
/// well-formed, `IncompleteResponse` where there is no such text,
/// `InvalidNumber` where it is no position.
pub fn scan_position(reading: &Reading) -> (seconds: Result<u32, UpnpError>)
    ensures
        seconds == spec_position(reading.deep_view()),
{
    if reading.fault {
        return Err(UpnpError::MalformedXml);
    }
    match last_text_inside(&reading.events, "RelTime") {
        None => Err(UpnpError::IncompleteResponse),
        Some(text) => position_seconds(text.as_str()),
    }
}

/// The position, in seconds, that the response `xml_root` reports.
pub fn parse_position(xml_root: &str) -> (seconds: Result<u32, UpnpError>)
    ensures
        seconds == spec_position(document_reading(xml_root@)),
{
    let reading = read_document(xml_root);
    scan_position(&reading)
}

/// The protocols that a response lists: the last text in a `Sink` element,
/// split at its commas. Without such a text the list holds the empty text
/// and nothing else.
pub open spec fn spec_supported_protocols(reading: ReadingView) -> Result<
    Seq<Seq<char>>,
    UpnpError,
> {
    if reading.fault {
        Err(UpnpError::MalformedXml)
    } else {
        Ok(split(last_or_empty(texts_inside(reading.events, "Sink"@)), ','))
    }
}

/// The protocols that a response lists; `MalformedXml` where the response is
/// not well-formed.
pub fn scan_supported_protocols(reading: &Reading) -> (protocols: Result<Vec<String>, UpnpError>)
    ensures
        result_view(protocols) == spec_supported_protocols(reading.deep_view()),
{
    if reading.fault {
        return Err(UpnpError::MalformedXml);
    }
    let sink = text_or_empty(last_text_inside(&reading.events, "Sink"));
    Ok(split_text(sink.as_str(), ','))
}

/// The protocols that the response `xml_root` lists.
pub fn parse_supported_protocols(xml_root: &str) -> (protocols: Result<Vec<String>, UpnpError>)
    ensures
        result_view(protocols) == spec_supported_protocols(document_reading(xml_root@)),
{
    let reading = read_document(xml_root);
    scan_supported_protocols(&reading)
}

/// The body of the last change that an event carries: the last text in a
/// `LastChange` element, as it stands; `None` without one.
pub open spec fn spec_last_change(reading: ReadingView) -> Result<Option<Seq<char>>, UpnpError> {
    if reading.fault {
        Err(UpnpError::MalformedXml)
    } else {
        Ok(last_of(texts_inside(reading.events, "LastChange"@)))
    }
}

/// The body of the last change that an event carries; `MalformedXml` where
/// the event is not well-formed.
pub fn scan_last_change(reading: &Reading) -> (change: Result<Option<String>, UpnpError>)
    ensures
        result_view(change) == spec_last_change(reading.deep_view()),
{
    if reading.fault {
        return Err(UpnpError::MalformedXml);
    }
    Ok(last_text_inside(&reading.events, "LastChange"))
}

/// The body of the last change that the event `xml_root` carries.
pub fn parse_last_change(xml_root: &str) -> (change: Result<Option<String>, UpnpError>)
    ensures
        result_view(change) == spec_last_change(document_reading(xml_root@)),
{
    let reading = read_document(xml_root);
    scan_last_change(&reading)
}

/// What the attribute `val` of the last element named `element` that has one
/// holds, as it stands; `None` without one.
pub open spec fn spec_value(reading: ReadingView, element: Seq<char>) -> Result<
    Option<Seq<char>>,
    UpnpError,
> {
    if reading.fault {
        Err(UpnpError::MalformedXml)
    } else {
        Ok(last_of(start_values(reading.events, element, "val"@)))
    }
}

/// What the attribute `val` of the last element named `element` that has one
/// holds; `MalformedXml` where the event is not well-formed.
pub fn scan_value(reading: &Reading, element: &str) -> (value: Result<Option<String>, UpnpError>)
    ensures
        result_view(value) == spec_value(reading.deep_view(), element@),
{
    if reading.fault {
        return Err(UpnpError::MalformedXml);
    }
    Ok(last_start_attribute(&reading.events, element, "val"))
}

/// The play mode that the event `xml_root` reports: the `val` of its last
/// `CurrentPlayMode` element.
pub fn parse_current_play_mode(xml_root: &str) -> (mode: Result<Option<String>, UpnpError>)
    ensures
        result_view(mode) == spec_value(document_reading(xml_root@), "CurrentPlayMode"@),
{
    let reading = read_document(xml_root);
    scan_value(&reading, "CurrentPlayMode")
}

/// The transport state that the event `xml_root` reports: the `val` of its
/// last `TransportState` element.
pub fn parse_transport_state(xml_root: &str) -> (state: Result<Option<String>, UpnpError>)
    ensures
        result_view(state) == spec_value(document_reading(xml_root@), "TransportState"@),
{
    let reading = read_document(xml_root);
    scan_value(&reading, "TransportState")
}

/// The description of the transport's URI that the event `xml_root` carries:
/// the `val` of its last `AVTransportURIMetaData` element.
pub fn parse_av_transport_uri_metadata(xml_root: &str) -> (metadata: Result<
    Option<String>,
    UpnpError,
>)
    ensures
        result_view(metadata) == spec_value(
            document_reading(xml_root@),
            "AVTransportURIMetaData"@,
        ),
{
    let reading = read_document(xml_root);
    scan_value(&reading, "AVTransportURIMetaData")
}

/// The description of the current track that the event `xml_root` carries:
/// the `val` of its last `CurrentTrackMetaData` element.
pub fn parse_current_track_metadata(xml_root: &str) -> (metadata: Result<
    Option<String>,
    UpnpError,
>)
    ensures
        result_view(metadata) == spec_value(document_reading(xml_root@), "CurrentTrackMetaData"@),
{
    let reading = read_document(xml_root);
    scan_value(&reading, "CurrentTrackMetaData")
}

/// The state of the transport that a response reports: for each field the
/// last text in the element of its name, or the empty text.
pub open spec fn spec_transport_info(reading: ReadingView) -> Result<TransportInfoView, UpnpError> {
    if reading.fault {
        Err(UpnpError::MalformedXml)
    } else {
        Ok(
            TransportInfoView {
                current_transport_state: last_or_empty(
                    texts_inside(reading.events, "CurrentTransportState"@),
                ),
                current_transport_status: last_or_empty(
                    texts_inside(reading.events, "CurrentTransportStatus"@),
                ),
                current_speed: last_or_empty(texts_inside(reading.events, "CurrentSpeed"@)),
            },
        )
    }
}

/// The state of the transport that a response reports, its three fields read
/// in one pass; `MalformedXml` where the response is not well-formed.
pub fn scan_transport_info(reading: &Reading) -> (info: Result<TransportInfo, UpnpError>)
    ensures
        result_view(info) == spec_transport_info(reading.deep_view()),
{
    if reading.fault {
        return Err(UpnpError::MalformedXml);
    }
    let events = &reading.events;
    let ghost all = events.deep_view();
    let mut state = TextField::new();
    let mut status = TextField::new();
    let mut speed = TextField::new();
    let mut i: usize = 0;
    while i < events.len()
        invariant
            i <= events.len(),
            all == events.deep_view(),
            state.tracks(all.take(i as int), "CurrentTransportState"@),
            status.tracks(all.take(i as int), "CurrentTransportStatus"@),
            speed.tracks(all.take(i as int), "CurrentSpeed"@),
        decreases events.len() - i,
    {
        proof {
            lemma_prefix_step(events, i as int);
        }
        state.feed(&events[i], "CurrentTransportState");
        status.feed(&events[i], "CurrentTransportStatus");
        speed.feed(&events[i], "CurrentSpeed");
        i += 1;
    }
    assert(all.take(events.len() as int) =~= all);
    Ok(
        TransportInfo {
            current_transport_state: text_or_empty(state.last),
            current_transport_status: text_or_empty(status.last),
            current_speed: text_or_empty(speed.last),
        },
    )
}

/// The state of the transport that the response `xml` reports.
pub fn parse_transport_info(xml: &str) -> (info: Result<TransportInfo, UpnpError>)
    ensures
        result_view(info) == spec_transport_info(document_reading(xml@)),
{
    let reading = read_document(xml);
    scan_transport_info(&reading)
}

} // verus!
