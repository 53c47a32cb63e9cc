//! launchd services: labels, relocation of service definitions, property
//! lists and `launchctl`.
pub mod launchctl;
pub mod plist;
pub mod store;

use vstd::prelude::*;
use vstd::utf8::{encode_utf8, valid_utf8};
use crate::metadata::Service;
use crate::relocator::text::{lemma_replace_same, replace_all, replace_prefix_in_bytes};
use crate::text::{bytes_of, push_str, string_from_utf8, to_string};

verus! {

/// The launchd label of the service of formula `name`.
pub open spec fn label(name: Seq<char>) -> Seq<char> {
    "sh.olma."@ + name
}

/// The launchd label of the service of formula `name`.
pub fn label_for(name: &str) -> (r: String)
    ensures
        r@ == label(name@),
{
    let mut r = to_string("sh.olma.");
    push_str(&mut r, name);
    r
}

/// The bytes `b` after each swap of `swaps[..k]`, in order, has replaced
/// every occurrence of its first string by its second.
pub open spec fn swapped_bytes(b: Seq<u8>, swaps: Seq<(String, String)>) -> Seq<u8>
    decreases swaps.len(),
{
    if swaps.len() == 0 {
        b
    } else {
        replace_all(swapped_bytes(b, swaps.drop_last()), encode_utf8(swaps.last().0@), encode_utf8(swaps.last().1@))
    }
}

/// `s` after every swap; `s` itself if the result would not be valid UTF-8.
pub open spec fn swap_all_spec(s: Seq<char>, swaps: Seq<(String, String)>, r: Seq<char>) -> bool {
    let b = swapped_bytes(encode_utf8(s), swaps);
    &&& valid_utf8(b) ==> encode_utf8(r) == b
    &&& !valid_utf8(b) ==> r == s
}

/// Applies every swap, in order, to `s`.
pub fn swap_all(s: &str, swaps: &[(String, String)]) -> (r: String)
    ensures
        swap_all_spec(s@, swaps@, r@),
{
    let mut bytes = bytes_of(s);
    let mut i: usize = 0;
    assert(swaps@.take(0) =~= Seq::<(String, String)>::empty());
    while i < swaps.len()
        invariant
            i <= swaps@.len(),
            bytes@ == swapped_bytes(encode_utf8(s@), swaps@.take(i as int)),
        decreases swaps.len() - i,
    {
        assert(swaps@.take(i + 1).drop_last() == swaps@.take(i as int));
        assert(swaps@.take(i + 1).last() == swaps@[i as int]);
        bytes = replace_prefix_in_bytes(bytes.as_slice(), swaps[i].0.as_str(), swaps[i].1.as_str());
        i = i + 1;
    }
    assert(swaps@.take(swaps@.len() as int) == swaps@);
    match string_from_utf8(bytes) {
        Some(r) => r,
        None => to_string(s),
    }
}

/// With no swaps a string comes back unchanged.
pub proof fn lemma_swap_all_no_swaps(s: Seq<char>, r: Seq<char>)
    requires
        swap_all_spec(s, Seq::<(String, String)>::empty(), r),
    ensures
        r == s,
{
    vstd::utf8::encode_utf8_valid_utf8(s);
    vstd::utf8::encode_utf8_decode_utf8(s);
    vstd::utf8::encode_utf8_decode_utf8(r);
}

/// Swaps that each put a string in place of itself leave the bytes as they were.
proof fn lemma_swapped_bytes_identity(b: Seq<u8>, swaps: Seq<(String, String)>)
    requires
        forall|i: int| 0 <= i < swaps.len() ==> (#[trigger] swaps[i]).0@ == swaps[i].1@,
    ensures
        swapped_bytes(b, swaps) == b,
    decreases swaps.len(),
{
    if swaps.len() > 0 {
        lemma_swapped_bytes_identity(b, swaps.drop_last());
        assert(swaps.last() == swaps[swaps.len() - 1]);
        lemma_replace_same(b, encode_utf8(swaps.last().0@));
    }
}

/// Swaps that each replace a string by itself leave every string unchanged.
pub proof fn lemma_swap_all_identity(s: Seq<char>, swaps: Seq<(String, String)>, r: Seq<char>)
    requires
        forall|i: int| 0 <= i < swaps.len() ==> (#[trigger] swaps[i]).0@ == swaps[i].1@,
        swap_all_spec(s, swaps, r),
    ensures
        r == s,
{
    lemma_swapped_bytes_identity(encode_utf8(s), swaps);
    vstd::utf8::encode_utf8_valid_utf8(s);
    vstd::utf8::encode_utf8_decode_utf8(s);
    vstd::utf8::encode_utf8_decode_utf8(r);
}

/// `swap_all` on an optional string.
fn swap_opt(o: &Option<String>, swaps: &[(String, String)]) -> (r: Option<String>)
    ensures
        r is Some <==> o is Some,
        r matches Some(x) ==> swap_all_spec(o->0@, swaps@, x@),
{
    match o {
        Some(p) => Some(swap_all(p.as_str(), swaps)),
        None => None,
    }
}

/// Rewrites every path-like field of a service definition with `swaps`:
/// the command line, working directory, log paths and environment values.
pub fn relocate_service(service: &mut Service, swaps: &[(String, String)])
    ensures
        final(service).run@.len() == old(service).run@.len(),
        forall|i: int| 0 <= i < old(service).run@.len() ==> swap_all_spec(
            old(service).run@[i]@, swaps@, #[trigger] final(service).run@[i]@),
        final(service).working_dir is Some <==> old(service).working_dir is Some,
        final(service).working_dir matches Some(x) ==> swap_all_spec(old(service).working_dir->0@, swaps@, x@),
        final(service).log_path is Some <==> old(service).log_path is Some,
        final(service).log_path matches Some(x) ==> swap_all_spec(old(service).log_path->0@, swaps@, x@),
        final(service).error_log_path is Some <==> old(service).error_log_path is Some,
        final(service).error_log_path matches Some(x) ==> swap_all_spec(old(service).error_log_path->0@, swaps@, x@),
        final(service).environment_variables@.len() == old(service).environment_variables@.len(),
        forall|i: int| 0 <= i < old(service).environment_variables@.len() ==>
            (#[trigger] final(service).environment_variables@[i]).0@ == old(service).environment_variables@[i].0@
            && swap_all_spec(old(service).environment_variables@[i].1@, swaps@, final(service).environment_variables@[i].1@),
        final(service).keep_alive == old(service).keep_alive,
        final(service).process_type == old(service).process_type,
{
    let mut run: Vec<String> = Vec::new();
    let mut i: usize = 0;
    while i < service.run.len()
        invariant
            i <= service.run@.len(),
            service.run@ == old(service).run@,
            run@.len() == i,
            forall|j: int| 0 <= j < i ==> swap_all_spec(service.run@[j]@, swaps@, #[trigger] run@[j]@),
        decreases service.run.len() - i,
    {
        run.push(swap_all(service.run[i].as_str(), swaps));
        i = i + 1;
    }
    let mut env: Vec<(String, String)> = Vec::new();
    let mut i: usize = 0;
    while i < service.environment_variables.len()
        invariant
            i <= service.environment_variables@.len(),
            service.environment_variables@ == old(service).environment_variables@,
            env@.len() == i,
            forall|j: int| 0 <= j < i ==> (#[trigger] env@[j]).0@ == service.environment_variables@[j].0@
                && swap_all_spec(service.environment_variables@[j].1@, swaps@, env@[j].1@),
        decreases service.environment_variables.len() - i,
    {
        let k = to_string(service.environment_variables[i].0.as_str());
        let v = swap_all(service.environment_variables[i].1.as_str(), swaps);
        env.push((k, v));
        i = i + 1;
    }
    let wd = swap_opt(&service.working_dir, swaps);
    let lp = swap_opt(&service.log_path, swaps);
    let ep = swap_opt(&service.error_log_path, swaps);
    service.run = run;
    service.environment_variables = env;
    service.working_dir = wd;
    service.log_path = lp;
    service.error_log_path = ep;
}

} // verus!
