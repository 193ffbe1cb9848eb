//! The errors that parsing a device document can end in.

use vstd::prelude::*;

verus! {

/// A required element of a device descriptor or of a service description.
#[derive(Clone, Copy, Debug, PartialEq, Eq, Structural)]
pub enum Field {
    /// `device`, the element of a descriptor that holds everything else.
    Device,
    /// `device/deviceType`.
    DeviceType,
    /// `device/friendlyName`.
    FriendlyName,
    /// `device/manufacturer`.
    Manufacturer,
    /// `device/modelName`.
    ModelName,
    /// `device/UDN`.
    Udn,
    /// `serviceType` of a service.
    ServiceType,
    /// `serviceId` of a service.
    ServiceId,
    /// `controlURL` of a service.
    ControlUrl,
    /// `eventSubURL` of a service.
    EventSubUrl,
    /// `SCPDURL` of a service.
    ScpdUrl,
    /// `name` of an action.
    ActionName,
    /// `name` of an argument.
    ArgumentName,
    /// `direction` of an argument.
    ArgumentDirection,
    /// `relatedStateVariable` of an argument.
    RelatedStateVariable,
}

/// The kind of document a [`Field`] belongs to.
#[derive(Clone, Copy, Debug, PartialEq, Eq, Structural)]
pub enum Document {
    /// The root document that describes a device and lists its services.
    DeviceDescriptor,
    /// The document that lists the actions of one service.
    ServiceDescription,
}

impl Field {
    /// The element's local name, as a sequence of characters.
    pub open spec fn spec_name(self) -> Seq<char> {
        match self {
            Field::Device => "device"@,
            Field::DeviceType => "deviceType"@,
            Field::FriendlyName => "friendlyName"@,
            Field::Manufacturer => "manufacturer"@,
            Field::ModelName => "modelName"@,
            Field::Udn => "UDN"@,
            Field::ServiceType => "serviceType"@,
            Field::ServiceId => "serviceId"@,
            Field::ControlUrl => "controlURL"@,
            Field::EventSubUrl => "eventSubURL"@,
            Field::ScpdUrl => "SCPDURL"@,
            Field::ActionName => "name"@,
            Field::ArgumentName => "name"@,
            Field::ArgumentDirection => "direction"@,
            Field::RelatedStateVariable => "relatedStateVariable"@,
        }
    }

    /// The kind of document the element is looked for in.
    pub open spec fn spec_document(self) -> Document {
        match self {
            Field::ActionName
            | Field::ArgumentName
            | Field::ArgumentDirection
            | Field::RelatedStateVariable => Document::ServiceDescription,
            _ => Document::DeviceDescriptor,
        }
    }

    /// The element's local name as it is written in the document.
    pub fn name(&self) -> (name: &'static str)
        ensures
            name@ == self.spec_name(),
    {
        match self {
            Field::Device => "device",
            Field::DeviceType => "deviceType",
            Field::FriendlyName => "friendlyName",
            Field::Manufacturer => "manufacturer",
            Field::ModelName => "modelName",
            Field::Udn => "UDN",
            Field::ServiceType => "serviceType",
            Field::ServiceId => "serviceId",
            Field::ControlUrl => "controlURL",
            Field::EventSubUrl => "eventSubURL",
            Field::ScpdUrl => "SCPDURL",
            Field::ActionName => "name",
            Field::ArgumentName => "name",
            Field::ArgumentDirection => "direction",
            Field::RelatedStateVariable => "relatedStateVariable",
        }
    }

    /// The kind of document the element is looked for in.
    pub fn document(&self) -> (document: Document)
        ensures
            document == self.spec_document(),
    {
        match self {
            Field::ActionName
            | Field::ArgumentName
            | Field::ArgumentDirection
            | Field::RelatedStateVariable => Document::ServiceDescription,
            _ => Document::DeviceDescriptor,
        }
    }
}

/// Why a document could not be turned into a record.
///
/// Every operation gives up at the first error and returns nothing else: no
/// partly built device, service, action list or listing.
#[derive(Clone, Copy, Debug, PartialEq, Eq, Structural)]
pub enum UpnpError {
    /// A document could not be retrieved from the device.
    Transport,
    /// A document is not well-formed XML.
    MalformedXml,
    /// A required element is absent.
    MissingField(Field),
    /// A numeric field does not hold a number in range.
    InvalidNumber,
    /// A URL could not be resolved against the device's base.
    InvalidUrl,
    /// A response holds no element of the kind that was asked for.
    IncompleteResponse,
}

/// A result by its characters.
pub open spec fn result_view<T: DeepView>(result: Result<T, UpnpError>) -> Result<T::V, UpnpError> {
    match result {
        Ok(value) => Ok(value.deep_view()),
        Err(error) => Err(error),
    }
}

} // verus!
