//! The records that the parsers return, and what each holds by its
//! characters.
//!
//! All of them are plain values: a device owns its services, a service its
//! actions, an action its arguments. Sequences keep document order.

use vstd::prelude::*;

verus! {

/// An argument of an action.
#[derive(Clone, Debug, Default, PartialEq, Eq)]
pub struct Argument {
    pub name: String,
    /// `in` or `out`, as the document writes it.
    pub direction: String,
    /// The state variable whose type the argument shares.
    pub related_state_variable: String,
}

/// An action that a service can be asked to perform.
#[derive(Clone, Debug, Default, PartialEq, Eq)]
pub struct Action {
    pub name: String,
    pub arguments: Vec<Argument>,
}

/// A service of a device. The three URLs are absolute.
#[derive(Clone, Debug, Default, PartialEq, Eq)]
pub struct Service {
    pub service_type: String,
    pub service_id: String,
    pub control_url: String,
    pub event_sub_url: String,
    pub scpd_url: String,
    pub actions: Vec<Action>,
}

/// A device, as its descriptor describes it.
#[derive(Clone, Debug, Default, PartialEq, Eq)]
pub struct Device {
    /// The URL the descriptor was retrieved from.
    pub location: String,
    pub device_type: String,
    pub friendly_name: String,
    pub manufacturer: String,
    pub manufacturer_url: Option<String>,
    pub model_description: Option<String>,
    pub model_name: String,
    pub model_number: Option<String>,
    /// The unique device name.
    pub udn: String,
    pub services: Vec<Service>,
}

/// A folder of a content listing.
#[derive(Clone, Debug, Default, PartialEq, Eq)]
pub struct Container {
    pub id: String,
    pub parent_id: String,
    pub title: String,
    /// The UPnP class, such as a music album.
    pub object_class: Option<String>,
}

/// A playable entry of a content listing.
#[derive(Clone, Debug, Default, PartialEq, Eq)]
pub struct Item {
    pub id: String,
    pub parent_id: String,
    pub title: String,
    pub artist: Option<String>,
    pub album: Option<String>,
    pub album_art_uri: Option<String>,
    pub genre: Option<String>,
    /// The UPnP class, such as a music track.
    pub object_class: Option<String>,
    /// The protocol descriptor of the resource, empty where the item has no
    /// audio or video resource.
    pub protocol_info: String,
    /// The resource's size in bytes.
    pub size: Option<u64>,
    /// The resource's duration, as the document writes it.
    pub duration: Option<String>,
    /// Where the resource can be played from, empty where none was found.
    pub url: String,
}

/// The description of one track.
#[derive(Clone, Debug, Default, PartialEq, Eq)]
pub struct Metadata {
    pub title: String,
    pub artist: Option<String>,
    pub album: Option<String>,
    pub album_art_uri: Option<String>,
    /// The `id` of the item that the description is about.
    pub url: String,
}

/// The state of a transport.
#[derive(Clone, Debug, Default, PartialEq, Eq)]
pub struct TransportInfo {
    pub current_transport_state: String,
    pub current_transport_status: String,
    pub current_speed: String,
}

/// An [`Argument`] by its characters.
pub struct ArgumentView {
    pub name: Seq<char>,
    pub direction: Seq<char>,
    pub related_state_variable: Seq<char>,
}

/// An [`Action`] by its characters.
pub struct ActionView {
    pub name: Seq<char>,
    pub arguments: Seq<ArgumentView>,
}

/// A [`Service`] by its characters.
pub struct ServiceView {
    pub service_type: Seq<char>,
    pub service_id: Seq<char>,
    pub control_url: Seq<char>,
    pub event_sub_url: Seq<char>,
    pub scpd_url: Seq<char>,
    pub actions: Seq<ActionView>,
}

/// A [`Device`] by its characters.
pub struct DeviceView {
    pub location: Seq<char>,
    pub device_type: Seq<char>,
    pub friendly_name: Seq<char>,
    pub manufacturer: Seq<char>,
    pub manufacturer_url: Option<Seq<char>>,
    pub model_description: Option<Seq<char>>,
    pub model_name: Seq<char>,
    pub model_number: Option<Seq<char>>,
    pub udn: Seq<char>,
    pub services: Seq<ServiceView>,
}

/// A [`Container`] by its characters.
pub struct ContainerView {
    pub id: Seq<char>,
    pub parent_id: Seq<char>,
    pub title: Seq<char>,
    pub object_class: Option<Seq<char>>,
}

/// An [`Item`] by its characters.
pub struct ItemView {
    pub id: Seq<char>,
    pub parent_id: Seq<char>,
    pub title: Seq<char>,
    pub artist: Option<Seq<char>>,
    pub album: Option<Seq<char>>,
    pub album_art_uri: Option<Seq<char>>,
    pub genre: Option<Seq<char>>,
    pub object_class: Option<Seq<char>>,
    pub protocol_info: Seq<char>,
    pub size: Option<u64>,
    pub duration: Option<Seq<char>>,
    pub url: Seq<char>,
}

/// A [`Metadata`] by its characters.
pub struct MetadataView {
    pub title: Seq<char>,
    pub artist: Option<Seq<char>>,
    pub album: Option<Seq<char>>,
    pub album_art_uri: Option<Seq<char>>,
    pub url: Seq<char>,
}

/// A [`TransportInfo`] by its characters.
pub struct TransportInfoView {
    pub current_transport_state: Seq<char>,
    pub current_transport_status: Seq<char>,
    pub current_speed: Seq<char>,
}

impl DeepView for Argument {
    type V = ArgumentView;

    open spec fn deep_view(&self) -> ArgumentView {
        ArgumentView {
            name: self.name@,
            direction: self.direction@,
            related_state_variable: self.related_state_variable@,
        }
    }
}

impl DeepView for Action {
    type V = ActionView;

    open spec fn deep_view(&self) -> ActionView {
        ActionView { name: self.name@, arguments: self.arguments.deep_view() }
    }
}

impl DeepView for Service {
    type V = ServiceView;

    open spec fn deep_view(&self) -> ServiceView {
        ServiceView {
            service_type: self.service_type@,
            service_id: self.service_id@,
            control_url: self.control_url@,
            event_sub_url: self.event_sub_url@,
            scpd_url: self.scpd_url@,
            actions: self.actions.deep_view(),
        }
    }
}

impl DeepView for Device {
    type V = DeviceView;

    open spec fn deep_view(&self) -> DeviceView {
        DeviceView {
            location: self.location@,
            device_type: self.device_type@,
            friendly_name: self.friendly_name@,
            manufacturer: self.manufacturer@,
            manufacturer_url: self.manufacturer_url.deep_view(),
            model_description: self.model_description.deep_view(),
            model_name: self.model_name@,
            model_number: self.model_number.deep_view(),
            udn: self.udn@,
            services: self.services.deep_view(),
        }
    }
}

impl DeepView for Container {
    type V = ContainerView;

    open spec fn deep_view(&self) -> ContainerView {
        ContainerView {
            id: self.id@,
            parent_id: self.parent_id@,
            title: self.title@,
            object_class: self.object_class.deep_view(),
        }
    }
}

impl DeepView for Item {
    type V = ItemView;

    open spec fn deep_view(&self) -> ItemView {
        ItemView {
            id: self.id@,
            parent_id: self.parent_id@,
            title: self.title@,
            artist: self.artist.deep_view(),
            album: self.album.deep_view(),
            album_art_uri: self.album_art_uri.deep_view(),
            genre: self.genre.deep_view(),
            object_class: self.object_class.deep_view(),
            protocol_info: self.protocol_info@,
            size: self.size,
            duration: self.duration.deep_view(),
            url: self.url@,
        }
    }
}

impl DeepView for Metadata {
    type V = MetadataView;

    open spec fn deep_view(&self) -> MetadataView {
        MetadataView {
            title: self.title@,
            artist: self.artist.deep_view(),
            album: self.album.deep_view(),
            album_art_uri: self.album_art_uri.deep_view(),
            url: self.url@,
        }
    }
}

impl DeepView for TransportInfo {
    type V = TransportInfoView;

    open spec fn deep_view(&self) -> TransportInfoView {
        TransportInfoView {
            current_transport_state: self.current_transport_state@,
            current_transport_status: self.current_transport_status@,
            current_speed: self.current_speed@,
        }
    }
}

} // verus!
