//! Whether a message can be written: how much room each part of it leaves.

use vstd::prelude::*;
use vstd::utf8::encode_utf8;

use crate::message::{
    count_known, known_part, lemma_known_part_len, lemma_params_bytes_grow,
    lemma_strings_bytes_grow, message_bytes, message_fits, param_bytes, param_fits, param_views,
    params_bytes, params_fit, payload_bytes, setup_bytes, text_fits, texts, texts_fit, Message,
    SetupParameter,
};
use crate::varint::VarInt;
use crate::wire::{
    lemma_be_bytes_len, lemma_varint_bytes_len, string_bytes, strings_bytes, tuple_bytes,
    varint_bytes,
};

verus! {

/// What some bytes leave of a room.
fn room_after_octets(room: usize, n: usize) -> (r: Option<usize>)
    ensures
        match r {
            Some(left) => left + n == room,
            None => n > room,
        },
{
    if n <= room {
        Some(room - n)
    } else {
        None
    }
}

/// What a variable-length integer leaves of a room, if it can be written.
fn room_after_varint(room: usize, v: u64) -> (r: Option<usize>)
    ensures
        match r {
            Some(left) => v <= VarInt::MAX && left + varint_bytes(v).len() == room,
            None => v > VarInt::MAX || varint_bytes(v).len() > room,
        },
{
    match VarInt::from_u64(v) {
        Ok(v) => room_after_octets(room, v.size()),
        Err(_) => None,
    }
}

/// What a string leaves of a room, if it can be written.
fn room_after_string(room: usize, s: &str) -> (r: Option<usize>)
    ensures
        match r {
            Some(left) => text_fits(s@) && left + string_bytes(s@).len() == room,
            None => !text_fits(s@) || string_bytes(s@).len() > room,
        },
{
    let n = s.as_bytes().len();
    assert(n == encode_utf8(s@).len());
    let room = room_after_varint(room, n as u64)?;
    room_after_octets(room, n)
}

/// What a tuple of strings leaves of a room, if it can be written.
fn room_after_tuple(room: usize, tuple: &Vec<String>) -> (r: Option<usize>)
    ensures
        match r {
            Some(left) => texts_fit(texts(tuple@)) && left + tuple_bytes(texts(tuple@)).len()
                == room,
            None => !texts_fit(texts(tuple@)) || tuple_bytes(texts(tuple@)).len() > room,
        },
{
    let ghost all = texts(tuple@);
    let start = room_after_varint(room, tuple.len() as u64)?;
    let mut left: usize = start;
    let mut i: usize = 0;
    assert(strings_bytes(all.take(0)) =~= Seq::<u8>::empty());
    while i < tuple.len()
        invariant
            i <= tuple.len(),
            all == texts(tuple@),
            all.len() <= VarInt::MAX,
            start + varint_bytes(all.len() as u64).len() == room,
            left + strings_bytes(all.take(i as int)).len() == start,
            forall|j: int| 0 <= j < i ==> text_fits(#[trigger] all[j]),
        decreases tuple.len() - i,
    {
        proof {
            assert(all.take(i + 1).drop_last() =~= all.take(i as int));
            lemma_strings_bytes_grow(all, i + 1);
            assert(all[i as int] == tuple@[i as int]@);
        }
        left = room_after_string(left, tuple[i].as_str())?;
        i = i + 1;
    }
    assert(all.take(all.len() as int) =~= all);
    Some(left)
}

/// What a parameter leaves of a room, if it can be written.
fn room_after_param(room: usize, p: &SetupParameter) -> (r: Option<usize>)
    ensures
        match r {
            Some(left) => param_fits(p@) && left + param_bytes(p@).len() == room,
            None => !param_fits(p@) || param_bytes(p@).len() > room,
        },
{
    broadcast use lemma_varint_bytes_len;

    match p {
        SetupParameter::Role(v) => {
            let room = room_after_octets(room, 2)?;
            room_after_varint(room, *v)
        },
        SetupParameter::Path(text) => {
            let room = room_after_octets(room, 1)?;
            room_after_string(room, text.as_str())
        },
        SetupParameter::MaxSubscribeId(v) => {
            let room = room_after_octets(room, 2)?;
            room_after_varint(room, *v)
        },
        SetupParameter::Unknown(_) => Some(room),
    }
}

/// What the parameters of a setup message leave of a room, if they can be
/// written.
fn room_after_setup(room: usize, params: &Vec<SetupParameter>) -> (r: Option<usize>)
    ensures
        match r {
            Some(left) => params_fit(param_views(params@)) && left + setup_bytes(
                param_views(params@),
            ).len() == room,
            None => !params_fit(param_views(params@)) || setup_bytes(param_views(params@)).len()
                > room,
        },
{
    let ghost all = param_views(params@);
    if params.len() as u64 > VarInt::MAX {
        return None;
    }
    let count = count_known(params);
    proof {
        lemma_known_part_len(all);
    }
    let start = room_after_varint(room, count as u64)?;
    let mut left: usize = start;
    let mut i: usize = 0;
    assert(params_bytes(all.take(0)) =~= Seq::<u8>::empty());
    while i < params.len()
        invariant
            i <= params.len(),
            all == param_views(params@),
            all.len() <= VarInt::MAX,
            start + varint_bytes(known_part(all).len() as u64).len() == room,
            left + params_bytes(all.take(i as int)).len() == start,
            forall|j: int| 0 <= j < i ==> param_fits(#[trigger] all[j]),
        decreases params.len() - i,
    {
        proof {
            assert(all.take(i + 1).drop_last() =~= all.take(i as int));
            lemma_params_bytes_grow(all, i + 1);
            assert(all[i as int] == params@[i as int]@);
        }
        left = room_after_param(left, &params[i])?;
        i = i + 1;
    }
    assert(all.take(all.len() as int) =~= all);
    Some(left)
}

impl Message {
    /// What the payload leaves of a room, if it can be written.
    fn room_after_payload(&self, room: usize) -> (r: Option<usize>)
        ensures
            match r {
                Some(left) => message_fits(self@) && left + payload_bytes(self@).len() == room,
                None => !message_fits(self@) || payload_bytes(self@).len() > room,
            },
    {
        broadcast use lemma_varint_bytes_len;

        match self {
            Message::ClientSetup(m) => room_after_setup(room, &m.params),
            Message::ServerSetup(m) => room_after_setup(room, &m.params),
            Message::Subscribe(m) => {
                let room = room_after_varint(room, m.subscribe_id)?;
                let room = room_after_varint(room, m.track_alias)?;
                let room = room_after_tuple(room, &m.track_namespace)?;
                let room = room_after_string(room, m.track_name.as_str())?;
                let room = room_after_octets(room, 2)?;
                room_after_varint(room, m.filter_type)
            },
            Message::SubscribeOk(m) => {
                let room = room_after_varint(room, m.subscribe_id)?;
                let room = room_after_varint(room, m.expires)?;
                room_after_octets(room, 2)
            },
            Message::RequestError(m) => {
                let room = room_after_varint(room, m.subscribe_id)?;
                let room = room_after_varint(room, m.error_code)?;
                room_after_string(room, m.reason_phrase.as_str())
            },
            Message::Unsubscribe(m) => room_after_varint(room, m.subscribe_id),
            Message::SubscribeDone(m) => {
                let room = room_after_varint(room, m.subscribe_id)?;
                let room = room_after_varint(room, m.status_code)?;
                let room = room_after_string(room, m.reason_phrase.as_str())?;
                room_after_octets(room, 1)
            },
            Message::GoAway(m) => room_after_string(room, m.new_session_uri.as_str()),
            Message::Publish(m) => {
                let room = room_after_tuple(room, &m.track_namespace)?;
                let room = room_after_string(room, m.track_name.as_str())?;
                room_after_octets(room, 3)
            },
            Message::PublishOk(m) => {
                let room = room_after_tuple(room, &m.track_namespace)?;
                let room = room_after_string(room, m.track_name.as_str())?;
                room_after_octets(room, 1)
            },
        }
    }

    /// Whether the message can be written: its numbers and lengths fit in
    /// variable-length integers, and all of it in memory.
    pub fn can_encode(&self) -> (b: bool)
        ensures
            b == (message_fits(self@) && message_bytes(self@).len() <= isize::MAX),
    {
        broadcast use {lemma_be_bytes_len, lemma_varint_bytes_len};

        match self.room_after_payload(isize::MAX as usize - 3) {
            Some(_) => true,
            None => false,
        }
    }
}

} // verus!
