//! What becomes of the bytes of a read or a write, from the call of a user to the
//! packets between the cards and back.

use vstd::prelude::*;
#[allow(unused_imports)]
use crate::device::scheduler::{common_of, is_split, law_segments_cover, law_segments_keep_the_rest, segments, sge0_of};
#[allow(unused_imports)]
use crate::device::sgl::{address_in, byte_at, law_cut_splits_bytes, law_slices_keep_bytes, taken, total_length};
#[allow(unused_imports)]
use crate::device::software::{
    elements, law_commands_are_kept, law_every_byte_is_sent, law_read_is_reported, law_sent_is_reported, message_cnt,
    messages, raw_error, received, sent_before, slices, update_succeeds, updated, LogicView, MessageView,
};
#[allow(unused_imports)]
use crate::device::work::{
    DescSge, ToCardWorkRbDesc, ToCardWorkRbDescWrite, ToHostWorkRbDesc, ToHostWorkRbDescRead, ToHostWorkRbDescWriteType,
};
#[allow(unused_imports)]
use crate::driver::{create_qp_desc, destroy_qp_desc, new_context, qp_after_work, work_desc};
#[allow(unused_imports)]
use crate::qp::{QpContext, QpStatus};
#[allow(unused_imports)]
use crate::responser::{ack_desc, after_read_resp, read_resp_desc};
#[allow(unused_imports)]
use crate::types::{
    add24, Key, Msn, Psn, Qp, QpType, Qpn, RdmaDeviceNetworkParam, Sge, ThreeBytesStruct, WorkReqSendFlag,
};

verus! {

/// Packet `k` of `all` brings byte `i`, and that byte comes from `from + j` and
/// goes to `to + j` under the key `key`, where `j` bytes come before it.
pub open spec fn byte_moves(all: Seq<MessageView>, k: nat, i: nat, from: u64, to: u64, key: Key) -> bool {
    let m = all[k as int];
    let meta = m.meta_data->General_0;
    let j = sent_before(all, k) + i;
    &&& m.meta_data is General
    &&& address_in(m.payload, i) == (from + j) % 0x1_0000_0000_0000_0000
    &&& (meta.reth.va + i) % 0x1_0000_0000_0000_0000 == (to + j) % 0x1_0000_0000_0000_0000
    &&& meta.reth.rkey == key
}

/// The bytes of a descriptor with one element come from that element.
proof fn lemma_one_element(desc: ToCardWorkRbDesc, sge: DescSge, j: nat)
    requires
        elements(desc) == seq![sge],
    ensures
        total_length(elements(desc)) == sge.len,
        j < sge.len ==> byte_at(elements(desc), j) == ((sge.addr + j) % 0x1_0000_0000_0000_0000, sge.key),
{
    let s = seq![sge];
    assert(s.drop_first() =~= Seq::<DescSge>::empty());
    assert(total_length(s.drop_first()) == 0);
}

/// A write sends the bytes of the user's memory: all of them, once and in order.
/// Byte `j` comes from `j` bytes behind the start of the local memory, which the
/// descriptor names with its own key, and goes `j` bytes behind the remote
/// address, under the remote key. The packets go to the queue pair's peer, and
/// carry the queue pair's next message number and packet numbers.
pub proof fn law_write_moves_bytes(
    qp: QpContext,
    raddr: u64,
    rkey: Key,
    flags: WorkReqSendFlag,
    sge: Sge,
    k: nat,
    i: nat,
)
    requires
        k < messages(work_desc(qp, raddr, rkey, flags, sge, false)).len(),
        i < messages(work_desc(qp, raddr, rkey, flags, sge, false))[k as int].length,
        qp.sending_psn@ <= 0xff_ffff,
    ensures
        ({
            let desc = work_desc(qp, raddr, rkey, flags, sge, false);
            let all = messages(desc);
            let meta = all[k as int].meta_data->General_0.common_meta;
            &&& byte_moves(all, k, i, sge.addr, raddr, rkey)
            &&& sent_before(all, all.len()) == sge.len
            &&& meta.dqpn == qp.qpn
            &&& meta.pkey == qp.next_msn
            &&& meta.psn@ == add24(qp.sending_psn@ as int, k as int)
        }),
{
    broadcast use Msn::lemma_of;

    let desc = work_desc(qp, raddr, rkey, flags, sge, false);
    let local = DescSge { addr: sge.addr, len: sge.len, key: sge.key };
    assert(elements(desc) =~= seq![local]);
    lemma_one_element(desc, local, 0);
    law_every_byte_is_sent(desc, k, i);
    lemma_one_element(desc, local, (sent_before(messages(desc), k) + i) as nat);
}

/// What a read or a write hands to the card besides its bytes: where the peer is,
/// how large a packet may be, the flags, and the key of the local memory. It is
/// all of one message, and a message's whole length is announced.
pub proof fn law_work_is_for_the_peer(
    qp: QpContext,
    raddr: u64,
    rkey: Key,
    flags: WorkReqSendFlag,
    sge: Sge,
    is_read: bool,
)
    ensures
        ({
            let desc = work_desc(qp, raddr, rkey, flags, sge, is_read);
            let c = common_of(desc);
            &&& is_read ==> desc is Read && desc->Read_0.sge.addr == sge.addr && desc->Read_0.sge.len == sge.len
                && desc->Read_0.sge.key == sge.key
            &&& !is_read ==> desc is Write && desc->Write_0.sge0.addr == sge.addr && desc->Write_0.sge0.len == sge.len
                && desc->Write_0.sge0.key == sge.key && desc->Write_0.sge1 is None && desc->Write_0.sge2 is None
                && desc->Write_0.sge3 is None && desc->Write_0.is_first && desc->Write_0.is_last
            &&& c.total_len == sge.len && c.raddr == raddr && c.rkey == rkey && c.flags == flags
            &&& c.dqp_ip == qp.dqp_ip && c.mac_addr == qp.dqp_mac_addr && c.dqpn == qp.qpn
            &&& c.pmtu == qp.pmtu && c.qp_type == qp.qp_type
            &&& c.psn == qp.sending_psn && c.msn@ == qp.next_msn
        }),
{
    broadcast use Msn::lemma_of;

}

/// A read request is answered with the bytes that it asks for. The card of the
/// peer reports the request, and the descriptor that is made of the report sends
/// byte `j` from `j` bytes behind the address that was asked for, under the key
/// that came with it, to `j` bytes behind the requester's memory, under that
/// memory's key. There are as many bytes as were asked for, and the answer carries
/// the number of the request's message.
pub proof fn law_read_is_answered(d: ToCardWorkRbDesc, peer: LogicView, peer_qp: QpContext, k: nat, i: nat)
    requires
        d is Read,
        peer_qp.sending_psn@ <= 0xff_ffff,
        ({
            let report = received(peer, messages(d)[0].meta_data).descriptor->0->Read_0;
            let all = messages(read_resp_desc(peer_qp, report));
            k < all.len() && i < all[k as int].length
        }),
    ensures
        ({
            let sent = received(peer, messages(d)[0].meta_data).descriptor;
            let report = sent->0->Read_0;
            let answer = read_resp_desc(peer_qp, report);
            let all = messages(answer);
            let meta = all[k as int].meta_data->General_0.common_meta;
            let c = common_of(d);
            let mine = d->Read_0.sge;
            &&& messages(d).len() == 1
            &&& sent is Some && sent->0 is Read
            &&& answer is ReadResp && answer->ReadResp_0.sge0.key == c.rkey
            &&& byte_moves(all, k, i, c.raddr, mine.addr, mine.key)
            &&& sent_before(all, all.len()) == c.total_len
            &&& meta.dqpn == c.dqpn
            &&& meta.pkey == c.msn@
            &&& meta.psn@ == add24(peer_qp.sending_psn@ as int, k as int)
        }),
{
    law_read_is_reported(d, peer);
    let report = received(peer, messages(d)[0].meta_data).descriptor->0->Read_0;
    let answer = read_resp_desc(peer_qp, report);
    let local = DescSge { addr: common_of(d).raddr, len: common_of(d).total_len, key: common_of(d).rkey };
    assert(elements(answer) =~= seq![local]);
    lemma_one_element(answer, local, 0);
    law_every_byte_is_sent(answer, k, i);
    lemma_one_element(answer, local, (sent_before(messages(answer), k) + i) as nat);
}

/// A read brings the remote bytes to the user's memory: byte `j` behind the remote
/// address, under the remote key, comes to `j` bytes behind the start of the
/// local memory, under the local key, for as many bytes as the local memory has.
/// The answer carries the number of the read's message.
pub proof fn law_read_moves_bytes(
    qp: QpContext,
    raddr: u64,
    rkey: Key,
    flags: WorkReqSendFlag,
    sge: Sge,
    peer: LogicView,
    peer_qp: QpContext,
    k: nat,
    i: nat,
)
    requires
        peer_qp.sending_psn@ <= 0xff_ffff,
        ({
            let d = work_desc(qp, raddr, rkey, flags, sge, true);
            let report = received(peer, messages(d)[0].meta_data).descriptor->0->Read_0;
            let all = messages(read_resp_desc(peer_qp, report));
            k < all.len() && i < all[k as int].length
        }),
    ensures
        ({
            let d = work_desc(qp, raddr, rkey, flags, sge, true);
            let report = received(peer, messages(d)[0].meta_data).descriptor->0->Read_0;
            let answer = read_resp_desc(peer_qp, report);
            let all = messages(answer);
            let meta = all[k as int].meta_data->General_0.common_meta;
            &&& byte_moves(all, k, i, raddr, sge.addr, sge.key)
            &&& answer->ReadResp_0.sge0.key == rkey
            &&& sent_before(all, all.len()) == sge.len
            &&& meta.dqpn == qp.qpn
            &&& meta.pkey == qp.next_msn
        }),
{
    broadcast use Msn::lemma_of;

    law_read_is_answered(work_desc(qp, raddr, rkey, flags, sge, true), peer, peer_qp, k, i);
}

/// What an answer to a read request hands to the card besides its bytes: it goes
/// to the queue pair's peer, it is all of one message, and announces as many bytes
/// as were asked for.
pub proof fn law_answer_is_for_the_requester(qp: QpContext, req: ToHostWorkRbDescRead)
    ensures
        ({
            let answer = read_resp_desc(qp, req);
            let c = common_of(answer);
            &&& answer is ReadResp && answer->ReadResp_0.is_first && answer->ReadResp_0.is_last
            &&& answer->ReadResp_0.sge0.addr == req.laddr && answer->ReadResp_0.sge0.len == req.len
                && answer->ReadResp_0.sge0.key == req.lkey
            &&& answer->ReadResp_0.sge1 is None && answer->ReadResp_0.sge2 is None && answer->ReadResp_0.sge3 is None
            &&& c.raddr == req.raddr && c.rkey == req.rkey && c.total_len == req.len
            &&& c.dqp_ip == qp.dqp_ip && c.mac_addr == qp.dqp_mac_addr && c.dqpn == req.common.dqpn
            &&& c.pmtu == qp.pmtu && c.qp_type == qp.qp_type && c.flags@ == 0
            &&& c.psn == qp.sending_psn && c.msn == req.common.msn
        }),
{
    broadcast use WorkReqSendFlag::lemma_of;

}

/// Packet numbers are neither left out nor used twice: after a read or a write, and
/// after an answer to a read, the queue pair goes on with the number after that of
/// the last packet that was sent. Nothing else of it changes, but that a read or a
/// write uses up a message number.
pub proof fn law_packet_numbers_follow(
    qp: QpContext,
    raddr: u64,
    rkey: Key,
    flags: WorkReqSendFlag,
    sge: Sge,
    is_read: bool,
    req: ToHostWorkRbDescRead,
)
    ensures
        ({
            let desc = work_desc(qp, raddr, rkey, flags, sge, is_read);
            let after = qp_after_work(qp, raddr, sge.len, is_read);
            &&& after.sending_psn@ == add24(qp.sending_psn@ as int, messages(desc).len() as int)
            &&& after.next_msn == (qp.next_msn + 1) % 0x1_0000
            &&& after == (QpContext { sending_psn: after.sending_psn, next_msn: after.next_msn, ..qp })
        }),
        ({
            let after = after_read_resp(qp, req);
            &&& after.sending_psn@ == add24(qp.sending_psn@ as int, messages(read_resp_desc(qp, req)).len() as int)
            &&& after == (QpContext { sending_psn: after.sending_psn, ..qp })
        }),
{
    broadcast use ThreeBytesStruct::lemma_of;

    let desc = work_desc(qp, raddr, rkey, flags, sge, is_read);
    let local = DescSge { addr: sge.addr, len: sge.len, key: sge.key };
    if !is_read {
        assert(elements(desc) =~= seq![local]);
        lemma_one_element(desc, local, 0);
    }
    let answer = read_resp_desc(qp, req);
    let asked = DescSge { addr: req.laddr, len: req.len, key: req.lkey };
    assert(elements(answer) =~= seq![asked]);
    lemma_one_element(answer, asked, 0);
}

/// An acknowledgement is sent as it was written: the descriptor for it makes the
/// card send the 66 bytes of its slot, in order, as a plain packet to the peer.
pub proof fn law_acknowledgement_is_sent(qp: QpContext, qpn: Qpn, msn: Msn, addr: u64, key: Key, j: nat)
    requires
        j < 66,
    ensures
        ({
            let desc = ack_desc(qp, qpn, msn, addr, key);
            let c = common_of(desc);
            &&& c.qp_type == QpType::RawPacket
            &&& raw_error(desc) is None
            &&& c.total_len == 66
            &&& total_length(taken(elements(desc), c.total_len as nat)) == 66
            &&& address_in(slices(taken(elements(desc), c.total_len as nat)), j) == (addr + j)
                % 0x1_0000_0000_0000_0000
            &&& desc is WriteWithImm && desc->WriteWithImm_0.sge0.key == key
            &&& c.dqp_ip == qp.dqp_ip && c.mac_addr == qp.dqp_mac_addr
            &&& c.dqpn == qpn && c.msn == msn
        }),
{
    let desc = ack_desc(qp, qpn, msn, addr, key);
    let local = DescSge { addr, len: 66, key };
    assert(elements(desc) =~= seq![local]);
    lemma_one_element(desc, local, j);
    law_cut_splits_bytes(elements(desc), 66, j);
    law_slices_keep_bytes(taken(elements(desc), 66), j);
}

/// A queue pair is the same to the driver and to its card: the command that sets
/// it up tells the card its packet size, its kind, its access and its protection
/// domain, which the driver keeps too, and the command that tears it down makes
/// the card forget it.
pub proof fn law_card_knows_the_queue_pair(
    qp: Qp,
    network: RdmaDeviceNetworkParam,
    card: LogicView,
    id: u32,
    id2: u32,
)
    ensures
        ({
            let kept = new_context(qp, network);
            let there = updated(card, create_qp_desc(qp, id));
            let gone = updated(there, destroy_qp_desc(kept, id2));
            &&& update_succeeds(card, create_qp_desc(qp, id))
            &&& there.qps.contains_key(qp.qpn@)
            &&& there.qps[qp.qpn@].pmtu == qp.pmtu && kept.pmtu == qp.pmtu
            &&& there.qps[qp.qpn@].qp_type == qp.qp_type && kept.qp_type == qp.qp_type
            &&& there.qps[qp.qpn@].qp_access_flags == qp.rq_acc_flags && kept.rq_acc_flags == qp.rq_acc_flags
            &&& there.qps[qp.qpn@].pdkey == qp.pd.handle && kept.pd == qp.pd
            &&& kept.qpn == qp.qpn && kept.peer_qpn == qp.peer_qpn
            &&& kept.dqp_ip == qp.dqp_ip && kept.dqp_mac_addr == qp.dqp_mac
            &&& kept.local_ip == network.ipaddr && kept.local_mac == network.macaddr
            &&& kept.status == QpStatus::Normal && kept.next_msn == 0 && kept.sending_psn@ == 0
            &&& update_succeeds(there, destroy_qp_desc(kept, id2))
            &&& gone.qps == card.qps.remove(qp.qpn@)
            &&& gone.mrs == card.mrs
            &&& create_qp_desc(qp, id).op_id_spec() == id && destroy_qp_desc(kept, id2).op_id_spec() == id2
            &&& create_qp_desc(qp, id)->QpManagement_0.peer_qpn == qp.peer_qpn
        }),
{
    broadcast use ThreeBytesStruct::lemma_of;

    let kept = new_context(qp, network);
    let there = updated(card, create_qp_desc(qp, id));
    let gone = updated(there, destroy_qp_desc(kept, id2));
    assert(gone.qps =~= card.qps.remove(qp.qpn@));
}

/// A write that is split announces itself as one message: the first packet of its
/// first segment is reported as the start of a message, with its whole length;
/// from the other segments no message starts.
pub proof fn law_split_message_is_announced_once(desc: ToCardWorkRbDesc, k: int, peer: LogicView)
    requires
        desc is Write,
        is_split(desc),
        0 <= k < segments(desc).len(),
        sge0_of(desc).len >= common_of(desc).total_len,
        common_of(desc).psn@ <= 0xff_ffff,
        desc->Write_0.sge1 is None,
        desc->Write_0.sge2 is None,
        desc->Write_0.sge3 is None,
        message_cnt(segments(desc)[k]) > 1,
    ensures
        ({
            let first = messages(segments(desc)[k])[0];
            &&& received(peer, first.meta_data).descriptor matches Some(ToHostWorkRbDesc::WriteOrReadResp(report))
            &&& report.write_type == ToHostWorkRbDescWriteType::First <==> k == 0
            &&& k == 0 ==> report.len == common_of(desc).total_len && report.addr == common_of(desc).raddr
                && report.psn@ == common_of(desc).psn@
        }),
{
    law_segments_cover(desc, k);
    law_segments_keep_the_rest(desc, k);
    let part = segments(desc)[k];
    assert(elements(part) =~= seq![sge0_of(part)]);
    lemma_one_element(part, sge0_of(part), 0);
    law_sent_is_reported(part, 0, peer);
    if k == 0 {
        assert(common_of(part).raddr as int % 0x1_0000_0000_0000_0000 == common_of(part).raddr);
    }
}

} // verus!
