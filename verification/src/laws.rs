//! What holds of the parsers taken together.

use crate::error::UpnpError;
use crate::events::{document_reading, ReadingView};
use crate::parser::description::{
    spec_parse_location, spec_parse_services, spec_service_description,
};
use crate::parser::directory::{
    spec_browse, spec_content_directory, spec_listing, spec_metadata, ListingView,
};
use crate::parser::response::{
    spec_duration, spec_last_change, spec_position, spec_supported_protocols,
    spec_transport_info, spec_value, spec_volume,
};
use vstd::prelude::*;

verus! {

/// Parsing is repeatable: what a parser returns is decided by the text it is
/// given, together with the address, location or base that goes with it.
/// Parsing the same text again gives a result that is equal field by field,
/// element by element and in the same order, be it a record or an error.
pub proof fn lemma_reparsing_gives_the_same(
    text: Seq<char>,
    again: Seq<char>,
    ip: Seq<char>,
    location: Seq<char>,
    base: Seq<char>,
)
    requires
        text == again,
    ensures
        spec_volume(document_reading(text)) == spec_volume(document_reading(again)),
        spec_duration(document_reading(text)) == spec_duration(document_reading(again)),
        spec_position(document_reading(text)) == spec_position(document_reading(again)),
        spec_supported_protocols(document_reading(text)) == spec_supported_protocols(
            document_reading(again),
        ),
        spec_last_change(document_reading(text)) == spec_last_change(document_reading(again)),
        forall|element: Seq<char>|
            spec_value(document_reading(text), element) == spec_value(
                document_reading(again),
                element,
            ),
        spec_transport_info(document_reading(text)) == spec_transport_info(document_reading(again)),
        spec_metadata(document_reading(text)) == spec_metadata(document_reading(again)),
        spec_content_directory(document_reading(text), ip) == spec_content_directory(
            document_reading(again),
            ip,
        ),
        spec_browse(document_reading(text), ip) == spec_browse(document_reading(again), ip),
        spec_service_description(text) == spec_service_description(again),
        spec_parse_services(base, text) == spec_parse_services(base, again),
        spec_parse_location(location, text) == spec_parse_location(location, again),
{
}

/// A document that is not well-formed gives no record: every parser of
/// response bodies, track descriptions and listings answers it with an
/// error. The error is `MalformedXml`, unless reading met another error
/// before the fault: a volume or a size that is no number, or an error in
/// the listing that a browse response wraps.
pub proof fn lemma_fault_gives_no_record(reading: ReadingView, ip: Seq<char>)
    requires
        reading.fault,
    ensures
        spec_volume(reading) is Err,
        spec_volume(reading) != Err::<u8, UpnpError>(UpnpError::IncompleteResponse),
        spec_duration(reading) == Err::<u32, UpnpError>(UpnpError::MalformedXml),
        spec_position(reading) == Err::<u32, UpnpError>(UpnpError::MalformedXml),
        spec_supported_protocols(reading) == Err::<Seq<Seq<char>>, UpnpError>(
            UpnpError::MalformedXml,
        ),
        spec_last_change(reading) == Err::<Option<Seq<char>>, UpnpError>(UpnpError::MalformedXml),
        forall|element: Seq<char>|
            spec_value(reading, element) == Err::<Option<Seq<char>>, UpnpError>(
                UpnpError::MalformedXml,
            ),
        spec_transport_info(reading) is Err,
        spec_metadata(reading) is Err,
        spec_content_directory(reading, ip) is Err,
        spec_browse(reading, ip) is Err,
        spec_listing(reading.events, ip) is Ok ==> spec_content_directory(reading, ip) == Err::<
            ListingView,
            UpnpError,
        >(UpnpError::MalformedXml),
{
}

} // verus!
