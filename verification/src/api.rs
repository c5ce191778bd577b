//! The discovery routes of the local MeshLLM API: the JSON response they
//! send, who may fetch the automatic Tailscale join bootstrap, and who may
//! fetch the LAN mesh details.

use vstd::prelude::*;
use vstd::string::StringExecFns;
use vstd::string::StringSliceAdditionalSpecFns;
use crate::tailnet::{
    authorizes, carries_meshllm_tag, in_tailscale_range, is_tailscale_ip, knows_authorized, reports_address,
    IpAddress, TailscaleStatus,
};
use crate::text::{decimal, decimal_text, owned};

verus! {

/// The answer to a join-bootstrap request.
pub enum JoinAccess {
    /// The invite token may be returned.
    Granted,
    /// The request is refused with this HTTP status and message.
    Refused { status: u16, message: &'static str },
}

/// A `200 OK` HTTP/1.1 response carrying `json`, with its length in bytes.
pub open spec fn json_response_text(json: &str) -> Seq<char> {
    "HTTP/1.1 200 OK\r\nContent-Type: application/json\r\nContent-Length: "@ + decimal(json.spec_bytes().len())
        + "\r\n\r\n"@ + json@
}

/// The `200 OK` HTTP/1.1 response carrying `json`.
pub fn json_ok_response(json: &str) -> (res: String)
    requires
        json.spec_bytes().len() <= usize::MAX,
    ensures
        res@ == json_response_text(json),
{
    let mut response = owned("HTTP/1.1 200 OK\r\nContent-Type: application/json\r\nContent-Length: ");
    response.append(decimal_text(json.len() as u64).as_str());
    response.append("\r\n\r\n");
    response.append(json);
    response
}

/// Whether the join bootstrap is handed out.
pub open spec fn join_granted(tailscale_mode: bool, remote: IpAddress, authorized_peer: bool) -> bool {
    tailscale_mode && in_tailscale_range(remote) && authorized_peer
}

/// Who may fetch the join bootstrap: only in Tailscale discovery mode, only
/// a caller with a Tailscale address, and only a caller that is a known
/// tailnet peer carrying the MeshLLM tag (`authorized_peer`, from the local
/// Tailscale status). Tailnet membership, or a 100.x address, is not enough.
pub fn tailscale_join_access(tailscale_mode: bool, remote: &IpAddress, authorized_peer: bool) -> (res: JoinAccess)
    ensures
        (res is Granted) == join_granted(tailscale_mode, *remote, authorized_peer),
        !tailscale_mode ==> (res matches JoinAccess::Refused { status, message } && status == 404
            && message@ == "Tailscale join is only available in Tailscale discovery mode"@),
        tailscale_mode && !(in_tailscale_range(*remote) && authorized_peer) ==> (res matches JoinAccess::Refused {
            status,
            message,
        } && status == 403 && message@ == "Tailscale peer required"@),
{
    if !tailscale_mode {
        return JoinAccess::Refused {
            status: 404,
            message: "Tailscale join is only available in Tailscale discovery mode",
        };
    }
    if !is_tailscale_ip(remote) || !authorized_peer {
        return JoinAccess::Refused { status: 403, message: "Tailscale peer required" };
    }
    JoinAccess::Granted
}

/// The refusal of a LAN details request, if any: a body that is not valid
/// JSON is a bad request, the route exists only in mDNS discovery mode, and
/// the caller must prove it holds the invite token.
pub open spec fn lan_details_refusal(parse_error: Option<Seq<char>>, mdns_mode: bool, proof_valid: bool) -> Option<(u16, Seq<char>)> {
    match parse_error {
        Some(e) => Some((400u16, "Invalid JSON body: "@ + e)),
        None => if !mdns_mode {
            Some((404u16, "LAN discovery details are only available in mDNS discovery mode"@))
        } else if !proof_valid {
            Some((403u16, "Invalid LAN discovery proof"@))
        } else {
            None
        },
    }
}

/// Who may fetch the LAN mesh details: given why the request body did not
/// parse (if it did not), whether the node is in mDNS discovery mode, and
/// whether the caller's token proof checked out. `Ok` means the details are
/// sent; otherwise the HTTP status and message to refuse with.
pub fn lan_details_access(parse_error: Option<&str>, mdns_mode: bool, proof_valid: bool) -> (res: Result<(), (u16, String)>)
    ensures
        match res {
            Ok(()) => lan_details_refusal(crate::tailnet::text_option(parse_error), mdns_mode, proof_valid) is None,
            Err((status, message)) => lan_details_refusal(crate::tailnet::text_option(parse_error), mdns_mode, proof_valid)
                == Some((status, message@)),
        },
{
    match parse_error {
        Some(e) => {
            let mut message = owned("Invalid JSON body: ");
            message.append(e);
            Err((400, message))
        },
        None => if !mdns_mode {
            Err((404, owned("LAN discovery details are only available in mDNS discovery mode")))
        } else if !proof_valid {
            Err((403, owned("Invalid LAN discovery proof")))
        } else {
            Ok(())
        },
    }
}

/// The join bootstrap, with the caller checked against the local Tailscale
/// status, goes only to a caller with a Tailscale address that a device of
/// the status reports and that device carries the MeshLLM tag. A tailnet
/// without a tagged device hands it to nobody, whatever the caller's address.
pub proof fn join_bootstrap_only_for_tagged_peers(status: TailscaleStatus, remote: IpAddress)
    ensures
        join_granted(true, remote, knows_authorized(status, remote)) ==> in_tailscale_range(remote),
        join_granted(true, remote, knows_authorized(status, remote)) ==> {
            ||| reports_address(status.self_peer, remote) && carries_meshllm_tag(status.self_peer)
            ||| exists|i: int| 0 <= i < status.peers@.len() && reports_address(#[trigger] status.peers@[i], remote)
                && carries_meshllm_tag(status.peers@[i])
        },
        (!carries_meshllm_tag(status.self_peer) && forall|i: int| 0 <= i < status.peers@.len() ==> !carries_meshllm_tag(
            #[trigger] status.peers@[i],
        )) ==> !join_granted(true, remote, knows_authorized(status, remote)),
{
    if join_granted(true, remote, knows_authorized(status, remote)) && !authorizes(status.self_peer, remote) {
        let i = choose|i: int| 0 <= i < status.peers@.len() && authorizes(#[trigger] status.peers@[i], remote);
        assert(reports_address(status.peers@[i], remote) && carries_meshllm_tag(status.peers@[i]));
    }
}

} // verus!
