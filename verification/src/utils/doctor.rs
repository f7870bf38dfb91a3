//! The figures of the environment report.

use vstd::prelude::*;
use crate::config::loader::Config;
use crate::testing::device::AdbDevice;
use crate::text::{join, push_str, string_from_str};

verus! {

/// One device as the report shows it: `serial (state)`.
pub open spec fn device_label(d: AdbDevice) -> Seq<char> {
    d.serial@ + " ("@ + d.state@ + ")"@
}

/// What the report says of `adb` once it ran: no devices, or the devices
/// joined by commas.
pub fn adb_summary(devices: &Vec<AdbDevice>) -> (r: String)
    ensures
        devices@.len() == 0 ==> r@ == "found, 0 devices connected"@,
        devices@.len() > 0 ==> r@ == "found, devices: "@ + join(devices@.map_values(|d: AdbDevice| device_label(d)), ", "@),
{
    if devices.len() == 0 {
        return string_from_str("found, 0 devices connected");
    }
    let ghost ls = devices@.map_values(|d: AdbDevice| device_label(d));
    let mut s = string_from_str("found, devices: ");
    let ghost head = s@;
    let mut i: usize = 0;
    assert(join(ls.take(0), ", "@) =~= Seq::<char>::empty()) by {
        reveal_with_fuel(join, 2);
    }
    assert(s@ =~= head + join(ls.take(0), ", "@));
    while i < devices.len()
        invariant
            i <= devices@.len(),
            ls == devices@.map_values(|d: AdbDevice| device_label(d)),
            head == "found, devices: "@,
            s@ == head + join(ls.take(i as int), ", "@),
        decreases devices.len() - i,
    {
        let ghost s0 = s@;
        if i > 0 {
            push_str(&mut s, ", ");
        }
        push_str(&mut s, devices[i].serial.as_str());
        push_str(&mut s, " (");
        push_str(&mut s, devices[i].state.as_str());
        push_str(&mut s, ")");
        proof {
            assert(ls.take(i + 1) =~= ls.take(i as int).push(ls[i as int]));
            crate::text::lemma_join_push(ls.take(i as int), ls[i as int], ", "@);
            reveal_strlit(", ");
        }
        i += 1;
    }
    assert(ls.take(devices@.len() as int) =~= ls);
    s
}

/// The number of enabled apps.
pub fn enabled_app_count(cfg: &Config) -> (r: usize)
    ensures
        r == cfg.apps@.filter(|e: (Seq<char>, crate::config::apps::AppConfig)| e.1.enabled).len(),
{
    let ghost pred = |e: (Seq<char>, crate::config::apps::AppConfig)| e.1.enabled;
    let ghost es = cfg.apps@;
    let mut n: usize = 0;
    let mut i: usize = 0;
    proof {
        reveal(Seq::filter);
        assert(es.take(0).filter(pred) =~= Seq::<(Seq<char>, crate::config::apps::AppConfig)>::empty());
    }
    while i < cfg.apps.len()
        invariant
            i <= es.len(),
            es == cfg.apps@,
            pred == (|e: (Seq<char>, crate::config::apps::AppConfig)| e.1.enabled),
            n == es.take(i as int).filter(pred).len(),
            n <= i,
        decreases es.len() - i,
    {
        proof {
            assert(es.take(i + 1) =~= es.take(i as int).push(es[i as int]));
            es.take(i as int).lemma_filter_push(es[i as int], pred);
        }
        if cfg.apps.value_at(i).enabled {
            n = n + 1;
        }
        i += 1;
    }
    assert(es.take(es.len() as int) =~= es);
    n
}

} // verus!
