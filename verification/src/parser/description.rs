//! Device descriptors and service descriptions.
//!
//! A descriptor names the device and lists its services; each service
//! points to a description of its own, which lists the actions it offers.
//! Retrieving the documents is the caller's part: the functions here take
//! their text, and [`ServiceLoader`] says which document to retrieve next.

use crate::error::{result_view, Field, UpnpError};
use crate::tree::{document_tree, lemma_children, read_tree, XmlNode, XmlTree};
use crate::types::{
    Action, ActionView, Argument, ArgumentView, Device, DeviceView, Service, ServiceView,
};
use crate::url::{base_origin, base_origin_of, build_absolute_url, is_absolute, resolved_url};
use vstd::prelude::*;

verus! {

/// The namespace of the elements of a device descriptor.
pub open spec fn device_namespace() -> Seq<char> {
    "urn:schemas-upnp-org:device-1-0"@
}

/// The namespace of the elements of a service description.
pub open spec fn service_namespace() -> Seq<char> {
    "urn:schemas-upnp-org:service-1-0"@
}

fn device_ns() -> (namespace: &'static str)
    ensures
        namespace@ == device_namespace(),
{
    "urn:schemas-upnp-org:device-1-0"
}

fn service_ns() -> (namespace: &'static str)
    ensures
        namespace@ == service_namespace(),
{
    "urn:schemas-upnp-org:service-1-0"
}

/// `done`, then what `rest` holds, or the error that `rest` is.
pub open spec fn followed_by<T>(done: Seq<T>, rest: Result<Seq<T>, UpnpError>) -> Result<
    Seq<T>,
    UpnpError,
> {
    match rest {
        Ok(more) => Ok(done + more),
        Err(error) => Err(error),
    }
}

/// What `read` makes of each of `nodes`, in their order, or the error that
/// `read` gives for the first node on which it gives one.
pub open spec fn each<T>(nodes: Seq<XmlTree>, read: spec_fn(XmlTree) -> Result<T, UpnpError>) -> Result<
    Seq<T>,
    UpnpError,
>
    decreases nodes.len(),
{
    if nodes.len() == 0 {
        Ok(Seq::empty())
    } else {
        match read(nodes[0]) {
            Err(error) => Err(error),
            Ok(first) => followed_by(seq![first], each(nodes.drop_first(), read)),
        }
    }
}

/// The nodes are read in their order, all or none: where `read` succeeds on
/// every node there is one record for each node, in the order of the nodes;
/// else the result is the error of the first node on which `read` fails.
pub proof fn lemma_each_in_order<T>(
    nodes: Seq<XmlTree>,
    read: spec_fn(XmlTree) -> Result<T, UpnpError>,
)
    ensures
        each(nodes, read) is Ok <==> forall|i: int| 0 <= i < nodes.len() ==> read(nodes[i]) is Ok,
        each(nodes, read) matches Ok(records) ==> {
            &&& records.len() == nodes.len()
            &&& forall|i: int| 0 <= i < nodes.len() ==> read(nodes[i]) == Ok::<T, UpnpError>(records[i])
        },
        each(nodes, read) matches Err(error) ==> exists|i: int|
            {
                &&& 0 <= i < nodes.len()
                &&& read(nodes[i]) == Err::<T, UpnpError>(error)
                &&& forall|j: int| 0 <= j < i ==> read(nodes[j]) is Ok
            },
    decreases nodes.len(),
{
    if nodes.len() > 0 {
        let tail = nodes.drop_first();
        lemma_each_in_order(tail, read);
        assert forall|i: int| 0 < i < nodes.len() implies tail[i - 1] == nodes[i] by {}
        match read(nodes[0]) {
            Err(error) => {
                assert(read(nodes[0]) == Err::<T, UpnpError>(error));
            },
            Ok(first) => {
                match each(tail, read) {
                    Ok(rest) => {
                        let records = seq![first] + rest;
                        assert forall|i: int| 0 <= i < nodes.len() implies read(nodes[i]) == Ok::<
                            T,
                            UpnpError,
                        >(records[i]) by {
                            if i > 0 {
                                assert(tail[i - 1] == nodes[i]);
                                assert(records[i] == rest[i - 1]);
                            }
                        }
                    },
                    Err(error) => {
                        let k = choose|k: int|
                            {
                                &&& 0 <= k < tail.len()
                                &&& read(tail[k]) == Err::<T, UpnpError>(error)
                                &&& forall|j: int| 0 <= j < k ==> read(tail[j]) is Ok
                            };
                        assert(tail[k] == nodes[k + 1]);
                        assert forall|j: int| 0 <= j < k + 1 implies read(nodes[j]) is Ok by {
                            if j > 0 {
                                assert(tail[j - 1] == nodes[j]);
                            }
                        }
                        assert(read(nodes[k + 1]) == Err::<T, UpnpError>(error));
                    },
                }
            },
        }
    }
}

/// Before any node is read, everything is yet to come.
proof fn lemma_none_done<T>(rest: Result<Seq<T>, UpnpError>)
    ensures
        followed_by(Seq::<T>::empty(), rest) == rest,
{
    if let Ok(more) = rest {
        assert(Seq::<T>::empty() + more =~= more);
    }
}

/// One more node read.
proof fn lemma_one_more_done<T>(done: Seq<T>, next: T, rest: Result<Seq<T>, UpnpError>)
    ensures
        followed_by(done, followed_by(seq![next], rest)) == followed_by(done.push(next), rest),
{
    if let Ok(more) = rest {
        assert(done + (seq![next] + more) =~= done.push(next) + more);
    }
}

/// After the last node is read, nothing is to come.
proof fn lemma_all_done<T>(done: Seq<T>)
    ensures
        followed_by(done, Ok(Seq::<T>::empty())) == Ok::<Seq<T>, UpnpError>(done),
{
    assert(done + Seq::<T>::empty() =~= done);
}

/// The text of the element `field` of `node`, which has to be there.
pub open spec fn required_text(node: XmlTree, namespace: Seq<char>, field: Field) -> Result<
    Seq<char>,
    UpnpError,
> {
    match node.find_text(namespace, field.spec_name()) {
        Some(text) => Ok(text),
        None => Err(UpnpError::MissingField(field)),
    }
}

/// The text of the element `name` of `node`, where the element is there and
/// holds text.
pub open spec fn optional_text(node: XmlTree, namespace: Seq<char>, name: Seq<char>) -> Option<
    Seq<char>,
> {
    match node.find_text(namespace, name) {
        Some(text) => if text.len() == 0 {
            None
        } else {
            Some(text)
        },
        None => None,
    }
}

fn read_required(node: &XmlNode, namespace: &str, field: Field) -> (text: Result<String, UpnpError>)
    ensures
        result_view(text) == required_text(node.deep_view(), namespace@, field),
{
    match node.find_text(namespace, field.name()) {
        Some(text) => Ok(text),
        None => Err(UpnpError::MissingField(field)),
    }
}

fn read_optional(node: &XmlNode, namespace: &str, name: &str) -> (text: Option<String>)
    ensures
        text.deep_view() == optional_text(node.deep_view(), namespace@, name@),
{
    match node.find_text(namespace, name) {
        Some(text) => if text.as_str().is_empty() {
            None
        } else {
            Some(text)
        },
        None => None,
    }
}

/// The argument that `node` describes. `name`, `direction` and
/// `relatedStateVariable` have to be there.
pub open spec fn argument_of(node: XmlTree) -> Result<ArgumentView, UpnpError> {
    let name = required_text(node, service_namespace(), Field::ArgumentName);
    let direction = required_text(node, service_namespace(), Field::ArgumentDirection);
    let related = required_text(node, service_namespace(), Field::RelatedStateVariable);
    if name is Err {
        Err(name->Err_0)
    } else if direction is Err {
        Err(direction->Err_0)
    } else if related is Err {
        Err(related->Err_0)
    } else {
        Ok(
            ArgumentView {
                name: name->Ok_0,
                direction: direction->Ok_0,
                related_state_variable: related->Ok_0,
            },
        )
    }
}

/// The arguments that the children of an `argumentList` describe.
pub open spec fn arguments_of(nodes: Seq<XmlTree>) -> Result<Seq<ArgumentView>, UpnpError> {
    each(nodes, |node: XmlTree| argument_of(node))
}

/// The action that `node` describes. `name` has to be there; an action
/// without an `argumentList` has no arguments.
pub open spec fn action_of(node: XmlTree) -> Result<ActionView, UpnpError> {
    let name = required_text(node, service_namespace(), Field::ActionName);
    let arguments = match node.find(service_namespace(), "argumentList"@) {
        Some(list) => arguments_of(list.children),
        None => Ok(Seq::empty()),
    };
    if name is Err {
        Err(name->Err_0)
    } else if arguments is Err {
        Err(arguments->Err_0)
    } else {
        Ok(ActionView { name: name->Ok_0, arguments: arguments->Ok_0 })
    }
}

/// The actions that the children of an `actionList` describe.
pub open spec fn actions_of(nodes: Seq<XmlTree>) -> Result<Seq<ActionView>, UpnpError> {
    each(nodes, |node: XmlTree| action_of(node))
}

/// The actions of the service description whose root is `root`. A
/// description without an `actionList` has no actions.
pub open spec fn spec_actions(root: XmlTree) -> Result<Seq<ActionView>, UpnpError> {
    match root.find(service_namespace(), "actionList"@) {
        Some(list) => actions_of(list.children),
        None => Ok(Seq::empty()),
    }
}

/// The actions of the service description `text`.
pub open spec fn spec_service_description(text: Seq<char>) -> Result<Seq<ActionView>, UpnpError> {
    match document_tree(text) {
        Some(root) => spec_actions(root),
        None => Err(UpnpError::MalformedXml),
    }
}

fn read_argument(node: &XmlNode) -> (argument: Result<Argument, UpnpError>)
    ensures
        result_view(argument) == argument_of(node.deep_view()),
{
    let name = match read_required(node, service_ns(), Field::ArgumentName) {
        Ok(text) => text,
        Err(error) => {
            return Err(error);
        },
    };
    let direction = match read_required(node, service_ns(), Field::ArgumentDirection) {
        Ok(text) => text,
        Err(error) => {
            return Err(error);
        },
    };
    let related_state_variable = match read_required(
        node,
        service_ns(),
        Field::RelatedStateVariable,
    ) {
        Ok(text) => text,
        Err(error) => {
            return Err(error);
        },
    };
    Ok(Argument { name, direction, related_state_variable })
}

fn read_arguments(list: &XmlNode) -> (arguments: Result<Vec<Argument>, UpnpError>)
    ensures
        result_view(arguments) == arguments_of(list.deep_view().children),
{
    let ghost nodes = list.deep_view().children;
    proof {
        lemma_children(*list);
    }
    let mut arguments: Vec<Argument> = Vec::new();
    let mut i: usize = 0;
    proof {
        assert(nodes.skip(0) =~= nodes);
        assert(arguments.deep_view() =~= Seq::<ArgumentView>::empty());
        lemma_none_done(arguments_of(nodes));
    }
    while i < list.children.len()
        invariant
            i <= list.children.len(),
            nodes == list.deep_view().children,
            nodes.len() == list.children@.len(),
            forall|k: int|
                0 <= k < list.children@.len() ==> #[trigger] nodes[k]
                    == list.children@[k].deep_view(),
            arguments_of(nodes) == followed_by(
                arguments.deep_view(),
                arguments_of(nodes.skip(i as int)),
            ),
        decreases list.children.len() - i,
    {
        let ghost done = arguments.deep_view();
        assert(nodes.skip(i as int).drop_first() =~= nodes.skip(i + 1));
        assert(nodes.skip(i as int)[0] == nodes[i as int]);
        match read_argument(&list.children[i]) {
            Ok(argument) => {
                arguments.push(argument);
                proof {
                    assert(arguments.deep_view() =~= done.push(argument.deep_view()));
                    lemma_one_more_done(
                        done,
                        argument.deep_view(),
                        arguments_of(nodes.skip(i + 1)),
                    );
                }
            },
            Err(error) => {
                return Err(error);
            },
        }
        i += 1;
    }
    proof {
        lemma_all_done(arguments.deep_view());
    }
    Ok(arguments)
}

fn read_action(node: &XmlNode) -> (action: Result<Action, UpnpError>)
    ensures
        result_view(action) == action_of(node.deep_view()),
{
    let name = match read_required(node, service_ns(), Field::ActionName) {
        Ok(text) => text,
        Err(error) => {
            return Err(error);
        },
    };
    let arguments = match node.find(service_ns(), "argumentList") {
        Some(list) => match read_arguments(list) {
            Ok(arguments) => arguments,
            Err(error) => {
                return Err(error);
            },
        },
        None => {
            let none: Vec<Argument> = Vec::new();
            assert(none.deep_view() =~= Seq::<ArgumentView>::empty());
            none
        },
    };
    Ok(Action { name, arguments })
}

/// The actions of the service description whose root is `root`, in document
/// order. `MissingField` where an action has no `name` or an argument lacks
/// one of its three elements; then no action is returned.
pub fn actions_from_tree(root: &XmlNode) -> (actions: Result<Vec<Action>, UpnpError>)
    ensures
        result_view(actions) == spec_actions(root.deep_view()),
{
    let list = match root.find(service_ns(), "actionList") {
        Some(list) => list,
        None => {
            let none: Vec<Action> = Vec::new();
            assert(none.deep_view() =~= Seq::<ActionView>::empty());
            return Ok(none);
        },
    };
    let ghost nodes = list.deep_view().children;
    proof {
        lemma_children(*list);
    }
    let mut actions: Vec<Action> = Vec::new();
    let mut i: usize = 0;
    proof {
        assert(nodes.skip(0) =~= nodes);
        assert(actions.deep_view() =~= Seq::<ActionView>::empty());
        lemma_none_done(actions_of(nodes));
    }
    while i < list.children.len()
        invariant
            i <= list.children.len(),
            nodes == list.deep_view().children,
            nodes.len() == list.children@.len(),
            forall|k: int|
                0 <= k < list.children@.len() ==> #[trigger] nodes[k]
                    == list.children@[k].deep_view(),
            spec_actions(root.deep_view()) == actions_of(nodes),
            actions_of(nodes) == followed_by(actions.deep_view(), actions_of(nodes.skip(i as int))),
        decreases list.children.len() - i,
    {
        let ghost done = actions.deep_view();
        assert(nodes.skip(i as int).drop_first() =~= nodes.skip(i + 1));
        assert(nodes.skip(i as int)[0] == nodes[i as int]);
        match read_action(&list.children[i]) {
            Ok(action) => {
                actions.push(action);
                proof {
                    assert(actions.deep_view() =~= done.push(action.deep_view()));
                    lemma_one_more_done(done, action.deep_view(), actions_of(nodes.skip(i + 1)));
                }
            },
            Err(error) => {
                return Err(error);
            },
        }
        i += 1;
    }
    proof {
        lemma_all_done(actions.deep_view());
    }
    Ok(actions)
}

/// The actions of the service description `xml_root`, in document order.
/// `MalformedXml` where the text is no document.
pub fn parse_service_description(xml_root: &str) -> (actions: Result<Vec<Action>, UpnpError>)
    ensures
        result_view(actions) == spec_service_description(xml_root@),
{
    match read_tree(xml_root) {
        Ok(root) => actions_from_tree(&root),
        Err(error) => Err(error),
    }
}

/// The three URLs of `service` are absolute.
pub open spec fn has_absolute_urls(service: ServiceView) -> bool {
    &&& is_absolute(service.control_url)
    &&& is_absolute(service.event_sub_url)
    &&& is_absolute(service.scpd_url)
}

/// The service that `node` describes, its URLs resolved against `base`, its
/// actions not yet known. `serviceType`, `serviceId`, `controlURL`,
/// `eventSubURL` and `SCPDURL` have to be there, and the three URLs have to
/// resolve.
pub open spec fn service_of(base: Seq<char>, node: XmlTree) -> Result<ServiceView, UpnpError> {
    let service_type = required_text(node, device_namespace(), Field::ServiceType);
    let service_id = required_text(node, device_namespace(), Field::ServiceId);
    let control = required_text(node, device_namespace(), Field::ControlUrl);
    let event_sub = required_text(node, device_namespace(), Field::EventSubUrl);
    let scpd = required_text(node, device_namespace(), Field::ScpdUrl);
    if service_type is Err {
        Err(service_type->Err_0)
    } else if service_id is Err {
        Err(service_id->Err_0)
    } else if control is Err {
        Err(control->Err_0)
    } else if event_sub is Err {
        Err(event_sub->Err_0)
    } else if scpd is Err {
        Err(scpd->Err_0)
    } else if resolved_url(base, control->Ok_0) is None || resolved_url(base, event_sub->Ok_0)
        is None || resolved_url(base, scpd->Ok_0) is None {
        Err(UpnpError::InvalidUrl)
    } else {
        Ok(
            ServiceView {
                service_type: service_type->Ok_0,
                service_id: service_id->Ok_0,
                control_url: resolved_url(base, control->Ok_0).unwrap(),
                event_sub_url: resolved_url(base, event_sub->Ok_0).unwrap(),
                scpd_url: resolved_url(base, scpd->Ok_0).unwrap(),
                actions: Seq::empty(),
            },
        )
    }
}

/// The services that the children of a `serviceList` describe.
pub open spec fn services_of(base: Seq<char>, nodes: Seq<XmlTree>) -> Result<
    Seq<ServiceView>,
    UpnpError,
> {
    each(nodes, |node: XmlTree| service_of(base, node))
}

/// The services of the descriptor whose root is `root`, for a device with
/// the base `base`. The `device` element has to be there; a device without
/// a `serviceList` has no services.
pub open spec fn spec_services(base: Seq<char>, root: XmlTree) -> Result<
    Seq<ServiceView>,
    UpnpError,
> {
    match root.find(device_namespace(), "device"@) {
        None => Err(UpnpError::MissingField(Field::Device)),
        Some(device) => match device.find(device_namespace(), "serviceList"@) {
            Some(list) => services_of(base, list.children),
            None => Ok(Seq::empty()),
        },
    }
}

/// A descriptor whose `serviceList` has N children, each of them a service
/// with its five elements and with URLs that resolve, gives exactly N
/// services, the i-th of them read from the i-th child. Where one of the
/// children is no such service, no service is returned.
pub proof fn lemma_services_in_document_order(base: Seq<char>, root: XmlTree)
    requires
        root.find(device_namespace(), "device"@) is Some,
        root.find(device_namespace(), "device"@).unwrap().find(
            device_namespace(),
            "serviceList"@,
        ) is Some,
    ensures
        ({
            let nodes = root.find(device_namespace(), "device"@).unwrap().find(
                device_namespace(),
                "serviceList"@,
            ).unwrap().children;
            &&& spec_services(base, root) is Ok <==> forall|i: int|
                0 <= i < nodes.len() ==> service_of(base, nodes[i]) is Ok
            &&& spec_services(base, root) matches Ok(services) ==> {
                &&& services.len() == nodes.len()
                &&& forall|i: int|
                    0 <= i < nodes.len() ==> service_of(base, nodes[i]) == Ok::<
                        ServiceView,
                        UpnpError,
                    >(services[i])
            }
        }),
{
    let nodes = root.find(device_namespace(), "device"@).unwrap().find(
        device_namespace(),
        "serviceList"@,
    ).unwrap().children;
    let read = |node: XmlTree| service_of(base, node);
    lemma_each_in_order(nodes, read);
    assert(spec_services(base, root) == each(nodes, read));
    assert forall|i: int| 0 <= i < nodes.len() implies read(nodes[i]) == service_of(
        base,
        nodes[i],
    ) by {}
}

/// A descriptor whose device has no `serviceList` describes a device without
/// services, whatever the base.
pub proof fn lemma_no_service_list(base: Seq<char>, root: XmlTree)
    requires
        root.find(device_namespace(), "device"@) matches Some(device) && device.find(
            device_namespace(),
            "serviceList"@,
        ) is None,
    ensures
        spec_services(base, root) == Ok::<Seq<ServiceView>, UpnpError>(Seq::empty()),
{
}

fn read_service(base_url: &str, node: &XmlNode) -> (service: Result<Service, UpnpError>)
    ensures
        result_view(service) == service_of(base_url@, node.deep_view()),
        service matches Ok(s) ==> has_absolute_urls(s.deep_view()),
{
    let service_type = match read_required(node, device_ns(), Field::ServiceType) {
        Ok(text) => text,
        Err(error) => {
            return Err(error);
        },
    };
    let service_id = match read_required(node, device_ns(), Field::ServiceId) {
        Ok(text) => text,
        Err(error) => {
            return Err(error);
        },
    };
    let control = match read_required(node, device_ns(), Field::ControlUrl) {
        Ok(text) => text,
        Err(error) => {
            return Err(error);
        },
    };
    let event_sub = match read_required(node, device_ns(), Field::EventSubUrl) {
        Ok(text) => text,
        Err(error) => {
            return Err(error);
        },
    };
    let scpd = match read_required(node, device_ns(), Field::ScpdUrl) {
        Ok(text) => text,
        Err(error) => {
            return Err(error);
        },
    };
    let control_url = match build_absolute_url(base_url, control.as_str()) {
        Ok(url) => url,
        Err(error) => {
            return Err(error);
        },
    };
    let event_sub_url = match build_absolute_url(base_url, event_sub.as_str()) {
        Ok(url) => url,
        Err(error) => {
            return Err(error);
        },
    };
    let scpd_url = match build_absolute_url(base_url, scpd.as_str()) {
        Ok(url) => url,
        Err(error) => {
            return Err(error);
        },
    };
    let actions: Vec<Action> = Vec::new();
    assert(actions.deep_view() =~= Seq::<ActionView>::empty());
    Ok(Service { service_type, service_id, control_url, event_sub_url, scpd_url, actions })
}

/// The services of the descriptor whose root is `root`, in document order,
/// for a device with the base `base_url`: one for each child of the
/// `serviceList`, its three URLs resolved against the base and absolute, its
/// actions empty. `MissingField` where the `device` element or one of a
/// service's five elements is absent, `InvalidUrl` where a URL does not
/// resolve; then no service is returned.
pub fn services_from_tree(base_url: &str, root: &XmlNode) -> (services: Result<
    Vec<Service>,
    UpnpError,
>)
    ensures
        result_view(services) == spec_services(base_url@, root.deep_view()),
        services matches Ok(found) ==> forall|i: int|
            0 <= i < found.len() ==> has_absolute_urls(#[trigger] found.deep_view()[i]),
{
    let device = match root.find(device_ns(), "device") {
        Some(device) => device,
        None => {
            return Err(UpnpError::MissingField(Field::Device));
        },
    };
    let list = match device.find(device_ns(), "serviceList") {
        Some(list) => list,
        None => {
            let none: Vec<Service> = Vec::new();
            assert(none.deep_view() =~= Seq::<ServiceView>::empty());
            return Ok(none);
        },
    };
    let ghost nodes = list.deep_view().children;
    proof {
        lemma_children(*list);
    }
    let mut services: Vec<Service> = Vec::new();
    let mut i: usize = 0;
    proof {
        assert(nodes.skip(0) =~= nodes);
        assert(services.deep_view() =~= Seq::<ServiceView>::empty());
        lemma_none_done(services_of(base_url@, nodes));
    }
    while i < list.children.len()
        invariant
            i <= list.children.len(),
            nodes == list.deep_view().children,
            nodes.len() == list.children@.len(),
            forall|k: int|
                0 <= k < list.children@.len() ==> #[trigger] nodes[k]
                    == list.children@[k].deep_view(),
            spec_services(base_url@, root.deep_view()) == services_of(base_url@, nodes),
            services_of(base_url@, nodes) == followed_by(
                services.deep_view(),
                services_of(base_url@, nodes.skip(i as int)),
            ),
            forall|k: int|
                0 <= k < services.len() ==> has_absolute_urls(#[trigger] services.deep_view()[k]),
        decreases list.children.len() - i,
    {
        let ghost done = services.deep_view();
        assert(nodes.skip(i as int).drop_first() =~= nodes.skip(i + 1));
        assert(nodes.skip(i as int)[0] == nodes[i as int]);
        match read_service(base_url, &list.children[i]) {
            Ok(service) => {
                services.push(service);
                proof {
                    assert(services.deep_view() =~= done.push(service.deep_view()));
                    lemma_one_more_done(
                        done,
                        service.deep_view(),
                        services_of(base_url@, nodes.skip(i + 1)),
                    );
                }
            },
            Err(error) => {
                return Err(error);
            },
        }
        i += 1;
    }
    proof {
        lemma_all_done(services.deep_view());
    }
    Ok(services)
}

/// The services of the descriptor `text`, for a device with the base `base`.
pub open spec fn spec_parse_services(base: Seq<char>, text: Seq<char>) -> Result<
    Seq<ServiceView>,
    UpnpError,
> {
    match document_tree(text) {
        Some(root) => spec_services(base, root),
        None => Err(UpnpError::MalformedXml),
    }
}

/// The services of the descriptor `xml_root`, in document order, for a
/// device with the base `base_url`, as `services_from_tree` reads them.
/// `MalformedXml` where the text is no document. The actions of each
/// service are empty: they stand in the service's description, which
/// [`ServiceLoader`] takes in.
pub fn parse_services(base_url: &str, xml_root: &str) -> (services: Result<Vec<Service>, UpnpError>)
    ensures
        result_view(services) == spec_parse_services(base_url@, xml_root@),
        services matches Ok(found) ==> forall|i: int|
            0 <= i < found.len() ==> has_absolute_urls(#[trigger] found.deep_view()[i]),
{
    match read_tree(xml_root) {
        Ok(root) => services_from_tree(base_url, &root),
        Err(error) => Err(error),
    }
}

/// The first of the elements that a device has to have and that `device`
/// lacks.
pub open spec fn first_missing(device: XmlTree) -> Option<Field> {
    if required_text(device, device_namespace(), Field::DeviceType) is Err {
        Some(Field::DeviceType)
    } else if required_text(device, device_namespace(), Field::FriendlyName) is Err {
        Some(Field::FriendlyName)
    } else if required_text(device, device_namespace(), Field::Manufacturer) is Err {
        Some(Field::Manufacturer)
    } else if required_text(device, device_namespace(), Field::ModelName) is Err {
        Some(Field::ModelName)
    } else if required_text(device, device_namespace(), Field::Udn) is Err {
        Some(Field::Udn)
    } else {
        None
    }
}

/// The device that the descriptor with the root `root`, retrieved from
/// `location`, describes. The `device` element has to be there, and in it
/// `deviceType`, `friendlyName`, `manufacturer`, `modelName` and `UDN`; `manufacturerURL`,
/// `modelDescription` and `modelNumber` are absent where the descriptor does
/// not have them or has them empty. The services' URLs are resolved against
/// the base of `location`.
pub open spec fn spec_device(location: Seq<char>, root: XmlTree) -> Result<DeviceView, UpnpError> {
    match root.find(device_namespace(), "device"@) {
        None => Err(UpnpError::MissingField(Field::Device)),
        Some(device) => match first_missing(device) {
            Some(field) => Err(UpnpError::MissingField(field)),
            None => match spec_services(base_origin_of(location), root) {
                Err(error) => Err(error),
                Ok(services) => Ok(
                    DeviceView {
                        location,
                        device_type: required_text(
                            device,
                            device_namespace(),
                            Field::DeviceType,
                        )->Ok_0,
                        friendly_name: required_text(
                            device,
                            device_namespace(),
                            Field::FriendlyName,
                        )->Ok_0,
                        manufacturer: required_text(
                            device,
                            device_namespace(),
                            Field::Manufacturer,
                        )->Ok_0,
                        manufacturer_url: optional_text(
                            device,
                            device_namespace(),
                            "manufacturerURL"@,
                        ),
                        model_description: optional_text(
                            device,
                            device_namespace(),
                            "modelDescription"@,
                        ),
                        model_name: required_text(
                            device,
                            device_namespace(),
                            Field::ModelName,
                        )->Ok_0,
                        model_number: optional_text(device, device_namespace(), "modelNumber"@),
                        udn: required_text(device, device_namespace(), Field::Udn)->Ok_0,
                        services,
                    },
                ),
            },
        },
    }
}

/// The device that the descriptor `text`, retrieved from `location`,
/// describes.
pub open spec fn spec_parse_location(location: Seq<char>, text: Seq<char>) -> Result<
    DeviceView,
    UpnpError,
> {
    match document_tree(text) {
        Some(root) => spec_device(location, root),
        None => Err(UpnpError::MalformedXml),
    }
}

/// The device that the descriptor with the root `root`, retrieved from
/// `location`, describes, with its services in document order.
/// `MissingField` names the first required element that is absent.
pub fn device_from_tree(location: &str, root: &XmlNode) -> (device: Result<Device, UpnpError>)
    ensures
        result_view(device) == spec_device(location@, root.deep_view()),
        device matches Ok(found) ==> forall|i: int|
            0 <= i < found.services.len() ==> has_absolute_urls(
                #[trigger] found.services.deep_view()[i],
            ),
{
    let node = match root.find(device_ns(), "device") {
        Some(node) => node,
        None => {
            return Err(UpnpError::MissingField(Field::Device));
        },
    };
    let device_type = match read_required(node, device_ns(), Field::DeviceType) {
        Ok(text) => text,
        Err(error) => {
            return Err(error);
        },
    };
    let friendly_name = match read_required(node, device_ns(), Field::FriendlyName) {
        Ok(text) => text,
        Err(error) => {
            return Err(error);
        },
    };
    let manufacturer = match read_required(node, device_ns(), Field::Manufacturer) {
        Ok(text) => text,
        Err(error) => {
            return Err(error);
        },
    };
    let manufacturer_url = read_optional(node, device_ns(), "manufacturerURL");
    let model_description = read_optional(node, device_ns(), "modelDescription");
    let model_name = match read_required(node, device_ns(), Field::ModelName) {
        Ok(text) => text,
        Err(error) => {
            return Err(error);
        },
    };
    let model_number = read_optional(node, device_ns(), "modelNumber");
    let udn = match read_required(node, device_ns(), Field::Udn) {
        Ok(text) => text,
        Err(error) => {
            return Err(error);
        },
    };
    let base = base_origin(location);
    let services = match services_from_tree(base.as_str(), root) {
        Ok(services) => services,
        Err(error) => {
            return Err(error);
        },
    };
    Ok(
        Device {
            location: location.to_owned(),
            device_type,
            friendly_name,
            manufacturer,
            manufacturer_url,
            model_description,
            model_name,
            model_number,
            udn,
            services,
        },
    )
}

/// The device that the descriptor `xml_root`, retrieved from `location`,
/// describes, as `device_from_tree` reads it. `MalformedXml` where the text
/// is no document. The actions of each service are empty: they stand in the
/// service's description, which [`ServiceLoader`] takes in.
pub fn parse_location(location: &str, xml_root: &str) -> (device: Result<Device, UpnpError>)
    ensures
        result_view(device) == spec_parse_location(location@, xml_root@),
        device matches Ok(found) ==> forall|i: int|
            0 <= i < found.services.len() ==> has_absolute_urls(
                #[trigger] found.services.deep_view()[i],
            ),
{
    match read_tree(xml_root) {
        Ok(root) => device_from_tree(location, &root),
        Err(error) => Err(error),
    }
}

} // verus!
