//! The control mutation handler: validates control-plane requests fully,
//! then applies them through the catalog. Validation always completes
//! before any mutation; a rejected request changes nothing.

use vstd::prelude::*;

use crate::catalog::Catalog;
use crate::catalog::best_in;
use crate::catalog::zones_updated_at;
use crate::ip::Ipv4;
use crate::ip::parse_ipv4;
use crate::ip::is_ipv4_text;
use crate::ip::ipv4_text;
use crate::name::valid_fqdn;
use crate::name::lower_seq;
use crate::name::check_fqdn;
use crate::store::RecordView;
use crate::settings::GrpcSettings;

verus! {

/// Options the control server is started with.
pub struct GrpcOptions {
    pub listen_addr: String,
}

impl From<GrpcSettings> for GrpcOptions {
    /// Carries the configured listen address over.
    fn from(cfg: GrpcSettings) -> (r: GrpcOptions) {
        GrpcOptions { listen_addr: cfg.listen_addr }
    }
}

impl vstd::std_specs::convert::FromSpecImpl<GrpcSettings> for GrpcOptions {
    open spec fn obeys_from_spec() -> bool {
        true
    }

    open spec fn from_spec(cfg: GrpcSettings) -> GrpcOptions {
        GrpcOptions { listen_addr: cfg.listen_addr }
    }
}

/// Why a control request was rejected.
#[derive(Clone, Copy, PartialEq, Eq, Structural, Debug)]
pub enum ControlError {
    /// The name is not a syntactically valid fully-qualified domain name.
    InvalidName,
    /// The value is not the dotted-quad text of an IPv4 address.
    InvalidAddress,
    /// No registered zone owns the name.
    NotConfigured,
}

/// The plain (success, message) pair handed back over the control channel.
pub struct ControlResponse {
    pub success: bool,
    pub message: String,
}

/// Validates one add-record request and, if it is valid and some zone owns
/// the name, upserts the record in the owning zone. A rejected request
/// leaves the catalog untouched.
pub fn add_record(catalog: &mut Catalog, name: &str, value: &str, ttl: u32) -> (r: Result<
    (),
    ControlError,
>)
    requires
        old(catalog).wf(),
    ensures
        final(catalog).wf(),
        !valid_fqdn(name@) ==> r == Result::<(), ControlError>::Err(ControlError::InvalidName)
            && *final(catalog) == *old(catalog),
        valid_fqdn(name@) && !is_ipv4_text(value@) ==> r == Result::<(), ControlError>::Err(
            ControlError::InvalidAddress,
        ) && *final(catalog) == *old(catalog),
        valid_fqdn(name@) && is_ipv4_text(value@) && best_in(
            old(catalog).zones_seq(),
            lower_seq(name@),
        ) is None ==> r == Result::<(), ControlError>::Err(ControlError::NotConfigured) && *final(catalog) == *old(catalog),
        best_in(old(catalog).zones_seq(), lower_seq(name@)) matches Some(i) ==> (valid_fqdn(name@)
            && is_ipv4_text(value@) ==> r == Result::<(), ControlError>::Ok(()) && zones_updated_at(
            old(catalog).zones_seq(),
            final(catalog).zones_seq(),
            i,
        ) && (!old(catalog).zones_seq()[i].records().contains_key(lower_seq(name@)) ==> final(catalog).zones_seq()[i].records_seq().len() == old(catalog).zones_seq()[i].records_seq().len()
            + 1) && (old(catalog).zones_seq()[i].records().contains_key(lower_seq(name@)) ==> final(catalog).zones_seq()[i].records_seq().len() == old(catalog).zones_seq()[i].records_seq().len())
            && exists|ip: Ipv4|
            value@ == ipv4_text(ip) && final(catalog).zones_seq()[i].records() == old(catalog).zones_seq()[i].records().insert(
                lower_seq(name@),
                (RecordView { name: name@, value: ip, ttl: ttl }),
            )),
{
    if !check_fqdn(name) {
        return Err(ControlError::InvalidName);
    }
    let ip = match parse_ipv4(value) {
        Some(ip) => ip,
        None => {
            return Err(ControlError::InvalidAddress);
        },
    };
    if catalog.mutate_add(name, ip, ttl) {
        Ok(())
    } else {
        Err(ControlError::NotConfigured)
    }
}

/// Validates one delete-record request and, if some zone owns the name,
/// removes the record from the owning zone. Deleting an absent record
/// succeeds and changes nothing; a rejected request leaves the catalog
/// untouched.
pub fn delete_record(catalog: &mut Catalog, name: &str) -> (r: Result<(), ControlError>)
    requires
        old(catalog).wf(),
    ensures
        final(catalog).wf(),
        !valid_fqdn(name@) ==> r == Result::<(), ControlError>::Err(ControlError::InvalidName)
            && *final(catalog) == *old(catalog),
        valid_fqdn(name@) && best_in(old(catalog).zones_seq(), lower_seq(name@)) is None ==> r
            == Result::<(), ControlError>::Err(ControlError::NotConfigured) && *final(catalog)
            == *old(catalog),
        best_in(old(catalog).zones_seq(), lower_seq(name@)) matches Some(i) ==> (valid_fqdn(name@)
            ==> r == Result::<(), ControlError>::Ok(()) && zones_updated_at(
            old(catalog).zones_seq(),
            final(catalog).zones_seq(),
            i,
        ) && final(catalog).zones_seq()[i].records() == old(catalog).zones_seq()[i].records().remove(lower_seq(name@)) && (!old(catalog).zones_seq()[i].records().contains_key(lower_seq(name@)) ==> final(catalog).zones_seq()
            == old(catalog).zones_seq())),
{
    if !check_fqdn(name) {
        return Err(ControlError::InvalidName);
    }
    if catalog.mutate_delete(name) {
        Ok(())
    } else {
        Err(ControlError::NotConfigured)
    }
}

/// Takes a read snapshot of every record in the catalog: display name,
/// dotted-quad value and ttl, zone by zone in registration order.
pub fn list_records(catalog: &Catalog) -> (r: Vec<(String, String, u32)>)
    requires
        catalog.wf(),
    ensures
        r@.len() == crate::catalog::all_records(catalog.zones_seq()).len(),
        forall|i: int|
            0 <= i < r@.len() ==> (#[trigger] r@[i]).0@ == crate::catalog::all_records(
                catalog.zones_seq(),
            )[i].name && r@[i].1@ == ipv4_text(
                crate::catalog::all_records(catalog.zones_seq())[i].value,
            ) && r@[i].2 == crate::catalog::all_records(catalog.zones_seq())[i].ttl,
{
    catalog.snapshot()
}

/// The (success, message) form of one control result: success exactly on
/// `Ok`, with the given text; a fixed description of each rejection.
pub fn describe_result(r: &Result<(), ControlError>, ok_text: &str) -> (resp: ControlResponse)
    ensures
        resp.success == r is Ok,
        r is Ok ==> resp.message@ == ok_text@,
        r == Result::<(), ControlError>::Err(ControlError::InvalidName) ==> resp.message@
            == "invalid domain name"@,
        r == Result::<(), ControlError>::Err(ControlError::InvalidAddress) ==> resp.message@
            == "invalid address value"@,
        r == Result::<(), ControlError>::Err(ControlError::NotConfigured) ==> resp.message@
            == "no zone is configured for this name"@,
{
    match r {
        Ok(()) => ControlResponse { success: true, message: ok_text.to_owned() },
        Err(ControlError::InvalidName) => ControlResponse {
            success: false,
            message: "invalid domain name".to_owned(),
        },
        Err(ControlError::InvalidAddress) => ControlResponse {
            success: false,
            message: "invalid address value".to_owned(),
        },
        Err(ControlError::NotConfigured) => ControlResponse {
            success: false,
            message: "no zone is configured for this name".to_owned(),
        },
    }
}

} // verus!
