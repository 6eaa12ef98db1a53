//! Requests for devices.
use vstd::prelude::*;

use crate::api::{complain, error_reply, list_json, object1, object2, reply, store_err_to_response, store_reply, text_json, ApiResponse, ReplyV};
use crate::json::{items_view, Json, JsonV};
use crate::store::{
    device_created, device_deleted, device_updated, store_ok, ConfigStore, DeviceRecord, DeviceV,
    StoreV,
};
use crate::table::ordered_keys;
use crate::text::cat3;

verus! {

/// A device as a value.
pub open spec fn device_value(d: DeviceV) -> JsonV {
    JsonV::Object(seq![("id"@, JsonV::String(d.id)), ("name"@, JsonV::String(d.name))])
}

fn device_json(d: &DeviceRecord) -> (r: Json)
    ensures
        r@ == device_value(d@),
{
    object2("id", text_json(d.id.as_str()), "name", text_json(d.name.as_str()))
}

/// The complaint that there is no such device.
pub open spec fn no_device_reply(id: Seq<char>) -> ReplyV {
    error_reply(404, "NOT_FOUND"@, "device `"@ + id + "`"@)
}

fn no_device(id: &str) -> (r: ApiResponse)
    ensures
        r@ == no_device_reply(id@),
{
    complain(404, "NOT_FOUND", cat3("device `", id, "`").as_str())
}

/// The devices in the order of their ids, as values.
pub open spec fn devices_value(s: StoreV) -> JsonV {
    JsonV::Object(
        seq![
            (
                "devices"@,
                JsonV::Array(
                    ordered_keys(s.devices).map_values(
                        |k: Seq<char>| device_value(DeviceV { id: k, name: s.devices[k] }),
                    ),
                ),
            ),
        ],
    )
}

pub fn list_devices(store: &ConfigStore) -> (r: ApiResponse)
    ensures
        r@ == (ReplyV { status: 200, body: devices_value(store@) }),
{
    let list: Vec<DeviceRecord> = store.list_devices();
    let ghost keys = list@.map_values(|d: DeviceRecord| d.id@);
    proof {
        crate::table::lemma_order(keys, store@.devices);
    }
    let mut items: Vec<Json> = Vec::new();
    let mut i: usize = 0;
    while i < list.len()
        invariant
            i <= list.len(),
            items@.len() == i,
            forall|j: int| 0 <= j < i ==> (#[trigger] items@[j])@ == device_value(list@[j]@),
        decreases list.len() - i,
    {
        items.push(device_json(&list[i]));
        i = i + 1;
    }
    proof {
        let want = ordered_keys(store@.devices).map_values(
            |k: Seq<char>| device_value(DeviceV { id: k, name: store@.devices[k] }),
        );
        assert forall|j: int| 0 <= j < items@.len() implies items_view(items@)[j] == want[j] by {
            assert(keys[j] == list@[j].id@);
        }
        assert(items_view(items@) =~= want);
    }
    reply(200, object1("devices", list_json(items)))
}

pub fn get_device(store: &ConfigStore, id: &str) -> (r: ApiResponse)
    ensures
        r@ == (if store@.devices.contains_key(id@) {
            ReplyV {
                status: 200,
                body: device_value(DeviceV { id: id@, name: store@.devices[id@] }),
            }
        } else {
            no_device_reply(id@)
        }),
{
    match store.get_device(id) {
        Some(d) => reply(200, device_json(&d)),
        None => no_device(id),
    }
}

pub fn create_device(store: &mut ConfigStore, rec: &DeviceRecord) -> (r: ApiResponse)
    requires
        store_ok(old(store)@),
    ensures
        match device_created(old(store)@, rec@) {
            Ok(x) => r@ == (ReplyV { status: 201, body: device_value(rec@) }) && final(store)@
                == x.0,
            Err(f) => r@ == store_reply(f) && final(store)@ == old(store)@,
        },
        store_ok(final(store)@),
{
    match store.create_device(rec) {
        Ok(()) => reply(201, device_json(rec)),
        Err(e) => store_err_to_response(e),
    }
}

pub fn update_device(store: &mut ConfigStore, rec: &DeviceRecord) -> (r: ApiResponse)
    requires
        store_ok(old(store)@),
    ensures
        match device_updated(old(store)@, rec@) {
            Ok(x) => final(store)@ == x.0 && r@ == (if x.1 {
                ReplyV { status: 200, body: device_value(rec@) }
            } else {
                no_device_reply(rec@.id)
            }),
            Err(f) => r@ == store_reply(f) && final(store)@ == old(store)@,
        },
        store_ok(final(store)@),
{
    match store.update_device(rec) {
        Ok(true) => reply(200, device_json(rec)),
        Ok(false) => no_device(rec.id.as_str()),
        Err(e) => store_err_to_response(e),
    }
}

pub fn delete_device(store: &mut ConfigStore, id: &str) -> (r: ApiResponse)
    requires
        store_ok(old(store)@),
    ensures
        match device_deleted(old(store)@, id@) {
            Ok(x) => final(store)@ == x.0 && r@ == (if x.1 {
                ReplyV {
                    status: 200,
                    body: JsonV::Object(seq![("deleted"@, JsonV::String(id@))]),
                }
            } else {
                no_device_reply(id@)
            }),
            Err(f) => r@ == store_reply(f) && final(store)@ == old(store)@,
        },
        store_ok(final(store)@),
{
    match store.delete_device(id) {
        Ok(true) => reply(200, object1("deleted", text_json(id))),
        Ok(false) => no_device(id),
        Err(e) => store_err_to_response(e),
    }
}

/// A device that is created can be had under its id.
pub proof fn created_devices_are_there(s: StoreV, d: DeviceV)
    requires
        device_created(s, d) is Ok,
    ensures
        device_created(s, d)->Ok_0.0.devices.contains_key(d.id),
        device_created(s, d)->Ok_0.0.devices[d.id] == d.name,
        device_created(device_created(s, d)->Ok_0.0, d) is Err,
{
}

/// A device is shown by its id and its name.
pub proof fn devices_are_shown_by_id_and_name(d: DeviceV)
    ensures
        device_value(d) matches JsonV::Object(o) && o.len() == 2 && o[0] == (
            "id"@,
            JsonV::String(d.id),
        ) && o[1] == ("name"@, JsonV::String(d.name)),
        no_device_reply(d.id).status == 404,
{
}

/// All devices are shown, in the order of their ids.
pub proof fn all_devices_are_shown(s: StoreV, i: int)
    requires
        0 <= i < ordered_keys(s.devices).len(),
    ensures
        devices_value(s) matches JsonV::Object(o) && o.len() == 1 && o[0].0 == "devices"@ && (
        o[0].1 matches JsonV::Array(a) && a.len() == ordered_keys(s.devices).len() && a[i]
            == device_value(
            (DeviceV {
                id: ordered_keys(s.devices)[i],
                name: s.devices[ordered_keys(s.devices)[i]],
            }),
        )),
{
}

} // verus!
