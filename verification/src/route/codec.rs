//! The bytes of the messages between the server and a lapp's wasm module:
//! what the services hand to the lapp, and the routes it hands back.

use vstd::prelude::*;
use vstd::utf8::*;

use crate::invoke::{lemma_read_text, push_text, read_text, take_text, text_field};
use crate::route::gossipsub::{
    Error as P2pError, ErrorKind, Message as P2pMessage, MessageIn as P2pMessageIn, MessageOut as P2pMessageOut,
};
use crate::route::http::Message as HttpMessage;
use crate::route::websocket::{Message as WsMessage, MessageIn as WsMessageIn, MessageOut as WsMessageOut};
use crate::route::Route;
use crate::wire::{
    field, lemma_field_len, lemma_read_field, lemma_subrange_part, push_field, push_u32, read_field, read_u32,
    take_field, take_u32, u32_le, WireError,
};

verus! {

broadcast use vstd::seq::group_seq_axioms;

// ---------------------------------------------------------------------------
// Views
// ---------------------------------------------------------------------------

/// A websocket message with its text as characters.
pub enum WsMessageView {
    Text(Seq<char>),
    Binary(Seq<u8>),
    Close,
}

impl View for WsMessage {
    type V = WsMessageView;

    open spec fn view(&self) -> WsMessageView {
        match self {
            WsMessage::Text(s) => WsMessageView::Text(s@),
            WsMessage::Binary(b) => WsMessageView::Binary(b@),
            WsMessage::Close => WsMessageView::Close,
        }
    }
}

/// A peer-to-peer request with its texts as characters.
pub enum P2pMessageView {
    Dial(Seq<char>),
    AddAddress(Seq<char>),
    Text(Seq<char>, Seq<char>),
    Close,
}

impl View for P2pMessage {
    type V = P2pMessageView;

    open spec fn view(&self) -> P2pMessageView {
        match self {
            P2pMessage::Dial(s) => P2pMessageView::Dial(s@),
            P2pMessage::AddAddress(s) => P2pMessageView::AddAddress(s@),
            P2pMessage::Text { peer_id, msg } => P2pMessageView::Text(peer_id@, msg@),
            P2pMessage::Close => P2pMessageView::Close,
        }
    }
}

/// A route with its texts as characters: the body of an HTTP message, or
/// the id and the message for a service.
pub enum RouteView {
    Http(Seq<char>),
    Websocket(Seq<char>, WsMessageView),
    Gossipsub(Seq<char>, P2pMessageView),
}

impl View for Route {
    type V = RouteView;

    open spec fn view(&self) -> RouteView {
        match self {
            Route::Http(m) => RouteView::Http(m.body@),
            Route::Websocket(m) => RouteView::Websocket(m.id@, m.msg@),
            Route::Gossipsub(m) => RouteView::Gossipsub(m.id@, m.msg@),
        }
    }
}

pub open spec fn routes_view(rs: Seq<Route>) -> Seq<RouteView> {
    rs.map_values(|r: Route| r@)
}

// ---------------------------------------------------------------------------
// Layout
// ---------------------------------------------------------------------------

pub open spec fn text_fits(s: Seq<char>) -> bool {
    encode_utf8(s).len() <= u32::MAX
}

pub open spec fn ws_message_encodable(m: WsMessageView) -> bool {
    match m {
        WsMessageView::Text(s) => text_fits(s),
        WsMessageView::Binary(b) => b.len() <= u32::MAX,
        WsMessageView::Close => true,
    }
}

pub open spec fn p2p_message_encodable(m: P2pMessageView) -> bool {
    match m {
        P2pMessageView::Dial(s) => text_fits(s),
        P2pMessageView::AddAddress(s) => text_fits(s),
        P2pMessageView::Text(p, t) => text_fits(p) && text_fits(t),
        P2pMessageView::Close => true,
    }
}

pub open spec fn route_encodable(r: RouteView) -> bool {
    match r {
        RouteView::Http(b) => text_fits(b),
        RouteView::Websocket(id, m) => text_fits(id) && ws_message_encodable(m),
        RouteView::Gossipsub(id, m) => text_fits(id) && p2p_message_encodable(m),
    }
}

pub open spec fn routes_encodable(rs: Seq<RouteView>) -> bool {
    rs.len() <= u32::MAX && forall|i: int| 0 <= i < rs.len() ==> route_encodable(#[trigger] rs[i])
}

/// A websocket message: the number of its kind, then its text or bytes.
pub open spec fn ws_message_wire(m: WsMessageView) -> Seq<u8> {
    match m {
        WsMessageView::Text(s) => seq![0u8] + text_field(s),
        WsMessageView::Binary(b) => seq![1u8] + field(b),
        WsMessageView::Close => seq![2u8],
    }
}

/// A peer-to-peer request: the number of its kind, then its texts.
pub open spec fn p2p_message_wire(m: P2pMessageView) -> Seq<u8> {
    match m {
        P2pMessageView::Dial(s) => seq![0u8] + text_field(s),
        P2pMessageView::AddAddress(s) => seq![1u8] + text_field(s),
        P2pMessageView::Text(p, t) => seq![2u8] + text_field(p) + text_field(t),
        P2pMessageView::Close => seq![3u8],
    }
}

/// A route: the number of its kind, then its fields.
pub open spec fn route_wire(r: RouteView) -> Seq<u8> {
    match r {
        RouteView::Http(b) => seq![0u8] + text_field(b),
        RouteView::Websocket(id, m) => seq![1u8] + text_field(id) + ws_message_wire(m),
        RouteView::Gossipsub(id, m) => seq![2u8] + text_field(id) + p2p_message_wire(m),
    }
}

pub open spec fn route_items_wire(rs: Seq<RouteView>) -> Seq<u8>
    decreases rs.len(),
{
    if rs.len() == 0 {
        Seq::empty()
    } else {
        route_items_wire(rs.drop_last()) + route_wire(rs.last())
    }
}

/// Routes: their number, then each route.
pub open spec fn routes_wire(rs: Seq<RouteView>) -> Seq<u8> {
    u32_le(rs.len() as u32) + route_items_wire(rs)
}

// ---------------------------------------------------------------------------
// Reading
// ---------------------------------------------------------------------------

pub open spec fn read_ws_message(data: Seq<u8>, pos: int) -> Option<(WsMessageView, int)> {
    if 0 <= pos < data.len() {
        let tag = data[pos];
        if tag == 0 {
            match read_text(data, pos + 1) {
                Some((s, p)) => Some((WsMessageView::Text(s), p)),
                None => None,
            }
        } else if tag == 1 {
            match read_field(data, pos + 1) {
                Some((b, p)) => Some((WsMessageView::Binary(b), p)),
                None => None,
            }
        } else if tag == 2 {
            Some((WsMessageView::Close, pos + 1))
        } else {
            None
        }
    } else {
        None
    }
}

pub open spec fn read_p2p_message(data: Seq<u8>, pos: int) -> Option<(P2pMessageView, int)> {
    if 0 <= pos < data.len() {
        let tag = data[pos];
        if tag == 0 || tag == 1 {
            match read_text(data, pos + 1) {
                Some((s, p)) => Some((if tag == 0 { P2pMessageView::Dial(s) } else { P2pMessageView::AddAddress(s) }, p)),
                None => None,
            }
        } else if tag == 2 {
            match read_text(data, pos + 1) {
                Some((peer, p1)) => match read_text(data, p1) {
                    Some((text, p2)) => Some((P2pMessageView::Text(peer, text), p2)),
                    None => None,
                },
                None => None,
            }
        } else if tag == 3 {
            Some((P2pMessageView::Close, pos + 1))
        } else {
            None
        }
    } else {
        None
    }
}

pub open spec fn read_route(data: Seq<u8>, pos: int) -> Option<(RouteView, int)> {
    if 0 <= pos < data.len() {
        let tag = data[pos];
        if tag == 0 {
            match read_text(data, pos + 1) {
                Some((b, p)) => Some((RouteView::Http(b), p)),
                None => None,
            }
        } else if tag == 1 {
            match read_text(data, pos + 1) {
                Some((id, p1)) => match read_ws_message(data, p1) {
                    Some((m, p2)) => Some((RouteView::Websocket(id, m), p2)),
                    None => None,
                },
                None => None,
            }
        } else if tag == 2 {
            match read_text(data, pos + 1) {
                Some((id, p1)) => match read_p2p_message(data, p1) {
                    Some((m, p2)) => Some((RouteView::Gossipsub(id, m), p2)),
                    None => None,
                },
                None => None,
            }
        } else {
            None
        }
    } else {
        None
    }
}

pub open spec fn read_route_items(data: Seq<u8>, pos: int, count: nat) -> Option<(Seq<RouteView>, int)>
    decreases count,
{
    if count == 0 {
        Some((Seq::empty(), pos))
    } else {
        match read_route(data, pos) {
            Some((r, p)) => match read_route_items(data, p, (count - 1) as nat) {
                Some((rs, q)) => Some((seq![r] + rs, q)),
                None => None,
            },
            None => None,
        }
    }
}

pub open spec fn read_routes(data: Seq<u8>, pos: int) -> Option<(Seq<RouteView>, int)> {
    match read_u32(data, pos) {
        Some(n) => read_route_items(data, pos + 4, n as nat),
        None => None,
    }
}

/// The routes that all of `data` holds.
pub open spec fn routes_from_bytes(data: Seq<u8>) -> Option<Seq<RouteView>> {
    match read_routes(data, 0) {
        Some((rs, n)) => if n == data.len() {
            Some(rs)
        } else {
            None
        },
        None => None,
    }
}

fn take_ws_message(data: &[u8], pos: usize) -> (r: Option<(WsMessage, usize)>)
    ensures
        match r {
            Some((m, next)) => read_ws_message(data@, pos as int) == Some((m@, next as int)),
            None => read_ws_message(data@, pos as int) is None,
        },
{
    if pos >= data.len() {
        return None;
    }
    let tag = data[pos];
    if tag == 0 {
        let (s, p) = take_text(data, pos + 1)?;
        Some((WsMessage::Text(s), p))
    } else if tag == 1 {
        let (b, p) = take_field(data, pos + 1)?;
        Some((WsMessage::Binary(b), p))
    } else if tag == 2 {
        Some((WsMessage::Close, pos + 1))
    } else {
        None
    }
}

fn take_p2p_message(data: &[u8], pos: usize) -> (r: Option<(P2pMessage, usize)>)
    ensures
        match r {
            Some((m, next)) => read_p2p_message(data@, pos as int) == Some((m@, next as int)),
            None => read_p2p_message(data@, pos as int) is None,
        },
{
    if pos >= data.len() {
        return None;
    }
    let tag = data[pos];
    if tag == 0 || tag == 1 {
        let (s, p) = take_text(data, pos + 1)?;
        let m = if tag == 0 { P2pMessage::Dial(s) } else { P2pMessage::AddAddress(s) };
        Some((m, p))
    } else if tag == 2 {
        let (peer_id, p1) = take_text(data, pos + 1)?;
        let (msg, p2) = take_text(data, p1)?;
        Some((P2pMessage::Text { peer_id, msg }, p2))
    } else if tag == 3 {
        Some((P2pMessage::Close, pos + 1))
    } else {
        None
    }
}

fn take_route(data: &[u8], pos: usize) -> (r: Option<(Route, usize)>)
    ensures
        match r {
            Some((route, next)) => read_route(data@, pos as int) == Some((route@, next as int)),
            None => read_route(data@, pos as int) is None,
        },
{
    if pos >= data.len() {
        return None;
    }
    let tag = data[pos];
    if tag == 0 {
        let (body, p) = take_text(data, pos + 1)?;
        Some((Route::Http(HttpMessage { body }), p))
    } else if tag == 1 {
        let (id, p1) = take_text(data, pos + 1)?;
        let (msg, p2) = take_ws_message(data, p1)?;
        Some((Route::Websocket(WsMessageOut { id, msg }), p2))
    } else if tag == 2 {
        let (id, p1) = take_text(data, pos + 1)?;
        let (msg, p2) = take_p2p_message(data, p1)?;
        Some((Route::Gossipsub(P2pMessageOut { id, msg }), p2))
    } else {
        None
    }
}

/// The routes a lapp handed back; `InvalidData` where `data` holds anything
/// else than a list of routes.
pub fn routes_from_slice(data: &[u8]) -> (r: Result<Vec<Route>, WireError>)
    ensures
        match r {
            Ok(rs) => routes_from_bytes(data@) == Some(routes_view(rs@)),
            Err(e) => routes_from_bytes(data@) is None && e == WireError::InvalidData,
        },
{
    let count = match take_u32(data, 0) {
        Some(n) => n,
        None => return Err(WireError::InvalidData),
    };
    let mut routes: Vec<Route> = Vec::new();
    let mut p: usize = 4;
    let mut i: u32 = 0;
    while i < count
        invariant
            i <= count,
            read_u32(data@, 0) == Some(count),
            read_routes(data@, 0) == match read_route_items(data@, p as int, (count - i) as nat) {
                Some((rest, q)) => Some((routes_view(routes@) + rest, q)),
                None => None,
            },
        decreases count - i,
    {
        let (route, next) = match take_route(data, p) {
            Some(x) => x,
            None => return Err(WireError::InvalidData),
        };
        let ghost before = routes@;
        routes.push(route);
        assert(routes_view(routes@) =~= routes_view(before) + seq![route@]);
        proof {
            match read_route_items(data@, next as int, (count - i - 1) as nat) {
                Some((rest, q)) => {
                    assert(routes_view(before) + (seq![route@] + rest) =~= routes_view(routes@) + rest);
                },
                None => {},
            }
        }
        p = next;
        i = i + 1;
    }
    assert(routes_view(routes@) + Seq::empty() =~= routes_view(routes@));
    if p == data.len() {
        Ok(routes)
    } else {
        Err(WireError::InvalidData)
    }
}

// ---------------------------------------------------------------------------
// Writing
// ---------------------------------------------------------------------------

fn push_ws_message(out: &mut Vec<u8>, m: &WsMessage) -> (ok: bool)
    ensures
        ok == ws_message_encodable(m@),
        ok ==> final(out)@ == old(out)@ + ws_message_wire(m@),
{
    let ghost start = out@;
    match m {
        WsMessage::Text(s) => {
            if s.as_str().as_bytes().len() > 0xffff_ffff {
                return false;
            }
            out.push(0);
            let ok = push_text(out, s);
            assert(out@ =~= start + ws_message_wire(m@));
            ok
        },
        WsMessage::Binary(b) => {
            if b.len() > 0xffff_ffff {
                return false;
            }
            out.push(1);
            push_field(out, b.as_slice());
            assert(out@ =~= start + ws_message_wire(m@));
            true
        },
        WsMessage::Close => {
            out.push(2);
            assert(out@ =~= start + ws_message_wire(m@));
            true
        },
    }
}

fn push_p2p_message(out: &mut Vec<u8>, m: &P2pMessage) -> (ok: bool)
    ensures
        ok == p2p_message_encodable(m@),
        ok ==> final(out)@ == old(out)@ + p2p_message_wire(m@),
{
    let ghost start = out@;
    match m {
        P2pMessage::Dial(s) => {
            if s.as_str().as_bytes().len() > 0xffff_ffff {
                return false;
            }
            out.push(0);
            let ok = push_text(out, s);
            assert(out@ =~= start + p2p_message_wire(m@));
            ok
        },
        P2pMessage::AddAddress(s) => {
            if s.as_str().as_bytes().len() > 0xffff_ffff {
                return false;
            }
            out.push(1);
            let ok = push_text(out, s);
            assert(out@ =~= start + p2p_message_wire(m@));
            ok
        },
        P2pMessage::Text { peer_id, msg } => {
            if peer_id.as_str().as_bytes().len() > 0xffff_ffff || msg.as_str().as_bytes().len() > 0xffff_ffff {
                return false;
            }
            out.push(2);
            push_text(out, peer_id);
            push_text(out, msg);
            assert(out@ =~= start + p2p_message_wire(m@));
            true
        },
        P2pMessage::Close => {
            out.push(3);
            assert(out@ =~= start + p2p_message_wire(m@));
            true
        },
    }
}

fn push_route(out: &mut Vec<u8>, r: &Route) -> (ok: bool)
    ensures
        ok == route_encodable(r@),
        ok ==> final(out)@ == old(out)@ + route_wire(r@),
{
    let ghost start = out@;
    match r {
        Route::Http(m) => {
            if m.body.as_str().as_bytes().len() > 0xffff_ffff {
                return false;
            }
            out.push(0);
            push_text(out, &m.body);
            assert(out@ =~= start + route_wire(r@));
            true
        },
        Route::Websocket(m) => {
            if m.id.as_str().as_bytes().len() > 0xffff_ffff || !ws_message_fits(&m.msg) {
                return false;
            }
            out.push(1);
            push_text(out, &m.id);
            push_ws_message(out, &m.msg);
            assert(out@ =~= start + route_wire(r@));
            true
        },
        Route::Gossipsub(m) => {
            if m.id.as_str().as_bytes().len() > 0xffff_ffff || !p2p_message_fits(&m.msg) {
                return false;
            }
            out.push(2);
            push_text(out, &m.id);
            push_p2p_message(out, &m.msg);
            assert(out@ =~= start + route_wire(r@));
            true
        },
    }
}

fn ws_message_fits(m: &WsMessage) -> (r: bool)
    ensures
        r == ws_message_encodable(m@),
{
    match m {
        WsMessage::Text(s) => s.as_str().as_bytes().len() <= 0xffff_ffff,
        WsMessage::Binary(b) => b.len() <= 0xffff_ffff,
        WsMessage::Close => true,
    }
}

fn p2p_message_fits(m: &P2pMessage) -> (r: bool)
    ensures
        r == p2p_message_encodable(m@),
{
    match m {
        P2pMessage::Dial(s) => s.as_str().as_bytes().len() <= 0xffff_ffff,
        P2pMessage::AddAddress(s) => s.as_str().as_bytes().len() <= 0xffff_ffff,
        P2pMessage::Text { peer_id, msg } =>
            peer_id.as_str().as_bytes().len() <= 0xffff_ffff && msg.as_str().as_bytes().len() <= 0xffff_ffff,
        P2pMessage::Close => true,
    }
}

/// The bytes of a list of routes, as a lapp hands them back; `InvalidData`
/// where a count or a length does not fit in a `u32`.
pub fn routes_to_vec(routes: &Vec<Route>) -> (r: Result<Vec<u8>, WireError>)
    ensures
        r is Ok <==> routes_encodable(routes_view(routes@)),
        r matches Ok(b) ==> b@ == routes_wire(routes_view(routes@)),
        r matches Err(e) ==> e == WireError::InvalidData,
{
    let ghost rs = routes_view(routes@);
    if routes.len() > 0xffff_ffff {
        return Err(WireError::InvalidData);
    }
    let mut out: Vec<u8> = Vec::new();
    push_u32(&mut out, routes.len() as u32);
    let n = routes.len();
    for i in 0..n
        invariant
            n == routes@.len(),
            rs == routes_view(routes@),
            n <= u32::MAX,
            out@ == u32_le(n as u32) + route_items_wire(rs.take(i as int)),
            forall|j: int| 0 <= j < i ==> route_encodable(#[trigger] rs[j]),
    {
        if !push_route(&mut out, &routes[i]) {
            assert(!route_encodable(rs[i as int]));
            return Err(WireError::InvalidData);
        }
        assert(rs.take(i + 1).drop_last() =~= rs.take(i as int));
        assert(out@ =~= u32_le(n as u32) + route_items_wire(rs.take(i + 1)));
    }
    assert(rs.take(n as int) =~= rs);
    Ok(out)
}

// ---------------------------------------------------------------------------
// Reading back what was written
// ---------------------------------------------------------------------------

proof fn lemma_text_at(data: Seq<u8>, pos: int, whole: Seq<u8>, off: int, s: Seq<char>)
    requires
        0 <= pos,
        pos + whole.len() <= data.len(),
        data.subrange(pos, pos + whole.len()) == whole,
        0 <= off,
        off + text_field(s).len() <= whole.len(),
        whole.subrange(off, off + text_field(s).len()) == text_field(s),
        text_fits(s),
    ensures
        read_text(data, pos + off) == Some((s, pos + off + text_field(s).len())),
{
    lemma_subrange_part(data, pos, whole, off, text_field(s));
    lemma_read_text(data, pos + off, s);
}

proof fn lemma_read_ws_message(data: Seq<u8>, pos: int, m: WsMessageView)
    requires
        0 <= pos,
        ws_message_encodable(m),
        pos + ws_message_wire(m).len() <= data.len(),
        data.subrange(pos, pos + ws_message_wire(m).len()) == ws_message_wire(m),
    ensures
        read_ws_message(data, pos) == Some((m, pos + ws_message_wire(m).len())),
{
    let w = ws_message_wire(m);
    assert(data[pos] == w[0]);
    match m {
        WsMessageView::Text(s) => {
            lemma_field_len(encode_utf8(s));
            assert(w.subrange(1, w.len() as int) =~= text_field(s));
            lemma_text_at(data, pos, w, 1, s);
        },
        WsMessageView::Binary(b) => {
            lemma_field_len(b);
            assert(w.subrange(1, w.len() as int) =~= field(b));
            lemma_subrange_part(data, pos, w, 1, field(b));
            lemma_read_field(data, pos + 1, b);
        },
        WsMessageView::Close => {},
    }
}

proof fn lemma_read_p2p_message(data: Seq<u8>, pos: int, m: P2pMessageView)
    requires
        0 <= pos,
        p2p_message_encodable(m),
        pos + p2p_message_wire(m).len() <= data.len(),
        data.subrange(pos, pos + p2p_message_wire(m).len()) == p2p_message_wire(m),
    ensures
        read_p2p_message(data, pos) == Some((m, pos + p2p_message_wire(m).len())),
{
    let w = p2p_message_wire(m);
    assert(data[pos] == w[0]);
    match m {
        P2pMessageView::Dial(s) => {
            lemma_field_len(encode_utf8(s));
            assert(w.subrange(1, w.len() as int) =~= text_field(s));
            lemma_text_at(data, pos, w, 1, s);
        },
        P2pMessageView::AddAddress(s) => {
            lemma_field_len(encode_utf8(s));
            assert(w.subrange(1, w.len() as int) =~= text_field(s));
            lemma_text_at(data, pos, w, 1, s);
        },
        P2pMessageView::Text(peer, text) => {
            lemma_field_len(encode_utf8(peer));
            lemma_field_len(encode_utf8(text));
            let a = text_field(peer);
            assert(w.subrange(1, 1 + a.len() as int) =~= a);
            lemma_text_at(data, pos, w, 1, peer);
            assert(w.subrange(1 + a.len() as int, w.len() as int) =~= text_field(text));
            lemma_text_at(data, pos, w, 1 + a.len() as int, text);
        },
        P2pMessageView::Close => {},
    }
}

proof fn lemma_read_route(data: Seq<u8>, pos: int, r: RouteView)
    requires
        0 <= pos,
        route_encodable(r),
        pos + route_wire(r).len() <= data.len(),
        data.subrange(pos, pos + route_wire(r).len()) == route_wire(r),
    ensures
        read_route(data, pos) == Some((r, pos + route_wire(r).len())),
{
    let w = route_wire(r);
    assert(data[pos] == w[0]);
    match r {
        RouteView::Http(b) => {
            lemma_field_len(encode_utf8(b));
            assert(w.subrange(1, w.len() as int) =~= text_field(b));
            lemma_text_at(data, pos, w, 1, b);
        },
        RouteView::Websocket(id, m) => {
            lemma_field_len(encode_utf8(id));
            let a = text_field(id);
            let mw = ws_message_wire(m);
            assert(w.subrange(1, 1 + a.len() as int) =~= a);
            lemma_text_at(data, pos, w, 1, id);
            assert(w.subrange(1 + a.len() as int, w.len() as int) =~= mw);
            lemma_subrange_part(data, pos, w, 1 + a.len() as int, mw);
            lemma_read_ws_message(data, pos + 1 + a.len() as int, m);
        },
        RouteView::Gossipsub(id, m) => {
            lemma_field_len(encode_utf8(id));
            let a = text_field(id);
            let mw = p2p_message_wire(m);
            assert(w.subrange(1, 1 + a.len() as int) =~= a);
            lemma_text_at(data, pos, w, 1, id);
            assert(w.subrange(1 + a.len() as int, w.len() as int) =~= mw);
            lemma_subrange_part(data, pos, w, 1 + a.len() as int, mw);
            lemma_read_p2p_message(data, pos + 1 + a.len() as int, m);
        },
    }
}

proof fn lemma_route_items_prepend(r: RouteView, rs: Seq<RouteView>)
    ensures
        route_items_wire(seq![r] + rs) == route_wire(r) + route_items_wire(rs),
    decreases rs.len(),
{
    let s = seq![r] + rs;
    if rs.len() == 0 {
        assert(s.drop_last() =~= Seq::<RouteView>::empty());
        assert(route_items_wire(Seq::<RouteView>::empty()) == Seq::<u8>::empty());
        assert(s.last() == r);
        assert(route_items_wire(s) == route_items_wire(s.drop_last()) + route_wire(s.last()));
        assert(route_items_wire(s) =~= route_wire(r) + route_items_wire(rs));
    } else {
        assert(s.drop_last() =~= seq![r] + rs.drop_last());
        lemma_route_items_prepend(r, rs.drop_last());
        assert(s.last() == rs.last());
        assert(route_items_wire(s) == route_items_wire(s.drop_last()) + route_wire(s.last()));
        assert(route_items_wire(rs) == route_items_wire(rs.drop_last()) + route_wire(rs.last()));
        assert(route_items_wire(s) =~= route_wire(r) + route_items_wire(rs));
    }
}

proof fn lemma_read_route_items(data: Seq<u8>, pos: int, rs: Seq<RouteView>)
    requires
        0 <= pos,
        pos + route_items_wire(rs).len() <= data.len(),
        data.subrange(pos, pos + route_items_wire(rs).len()) == route_items_wire(rs),
        forall|i: int| 0 <= i < rs.len() ==> route_encodable(#[trigger] rs[i]),
    ensures
        read_route_items(data, pos, rs.len()) == Some((rs, pos + route_items_wire(rs).len())),
    decreases rs.len(),
{
    if rs.len() > 0 {
        let r = rs[0];
        let t = rs.drop_first();
        assert(rs =~= seq![r] + t);
        lemma_route_items_prepend(r, t);
        let w = route_items_wire(rs);
        let rw = route_wire(r);
        let tw = route_items_wire(t);
        assert(w == rw + tw);
        assert(w.subrange(0, rw.len() as int) =~= rw);
        lemma_subrange_part(data, pos, w, 0, rw);
        assert(route_encodable(rs[0]));
        lemma_read_route(data, pos, r);
        assert(w.subrange(rw.len() as int, w.len() as int) =~= tw);
        lemma_subrange_part(data, pos, w, rw.len() as int, tw);
        assert forall|i: int| 0 <= i < t.len() implies route_encodable(#[trigger] t[i]) by {
            assert(t[i] == rs[i + 1]);
        }
        lemma_read_route_items(data, pos + rw.len(), t);
        assert(t.len() == (rs.len() - 1) as nat);
        assert(read_route_items(data, pos, rs.len()) == Some((seq![r] + t, pos + rw.len() + tw.len())));
    } else {
        assert(rs =~= Seq::<RouteView>::empty());
    }
}

/// Routes read back from their own bytes: what a lapp hands back is what
/// the server reads.
pub proof fn lemma_routes_roundtrip(rs: Seq<RouteView>)
    requires
        routes_encodable(rs),
    ensures
        routes_from_bytes(routes_wire(rs)) == Some(rs),
{
    let w = routes_wire(rs);
    let iw = route_items_wire(rs);
    crate::wire::lemma_u32_le(rs.len() as u32);
    assert(w.subrange(0, 4) =~= u32_le(rs.len() as u32));
    assert(read_u32(w, 0) == Some(rs.len() as u32));
    assert(w.subrange(4, 4 + iw.len() as int) =~= iw);
    lemma_read_route_items(w, 4, rs);
}

// ---------------------------------------------------------------------------
// What the services hand to a lapp
// ---------------------------------------------------------------------------

/// What the websocket service tells a lapp, with its texts as characters.
pub enum WsMessageInView {
    Message(WsMessageView),
    /// The id answered, and the failure's text where sending failed.
    Response(Seq<char>, Option<Seq<char>>),
    Timeout,
    Error(Seq<char>),
}

impl View for WsMessageIn {
    type V = WsMessageInView;

    open spec fn view(&self) -> WsMessageInView {
        match self {
            WsMessageIn::Message(m) => WsMessageInView::Message(m@),
            WsMessageIn::Response { id, result } => WsMessageInView::Response(id@, match result {
                Ok(_) => None,
                Err(e) => Some(e@),
            }),
            WsMessageIn::Timeout => WsMessageInView::Timeout,
            WsMessageIn::Error(e) => WsMessageInView::Error(e@),
        }
    }
}

/// What the peer-to-peer service tells a lapp, with its texts as characters.
pub enum P2pMessageInView {
    Text(Seq<char>, Seq<char>),
    /// The id answered, and the failure's message and kind where the request failed.
    Response(Seq<char>, Option<(Seq<char>, ErrorKind)>),
}

impl View for P2pMessageIn {
    type V = P2pMessageInView;

    open spec fn view(&self) -> P2pMessageInView {
        match self {
            P2pMessageIn::Text { peer_id, msg } => P2pMessageInView::Text(peer_id@, msg@),
            P2pMessageIn::Response { id, result } => P2pMessageInView::Response(id@, match result {
                Ok(_) => None,
                Err(e) => Some((e.message@, e.kind)),
            }),
        }
    }
}

/// The number of a kind of peer-to-peer failure.
pub open spec fn kind_code(k: ErrorKind) -> u8 {
    match k {
        ErrorKind::GossipsubPublishError => 0,
        ErrorKind::ParsePeerIdError => 1,
        ErrorKind::DialError => 2,
        ErrorKind::WrongMultiaddr => 3,
        ErrorKind::Other => 4,
    }
}

pub open spec fn ws_message_in_encodable(m: WsMessageInView) -> bool {
    match m {
        WsMessageInView::Message(msg) => ws_message_encodable(msg),
        WsMessageInView::Response(id, r) => text_fits(id) && (r matches Some(e) ==> text_fits(e)),
        WsMessageInView::Timeout => true,
        WsMessageInView::Error(e) => text_fits(e),
    }
}

/// A websocket notice: the number of its kind, then its fields; an outcome
/// is `1` for success, or `0` and the failure's text.
pub open spec fn ws_message_in_wire(m: WsMessageInView) -> Seq<u8> {
    match m {
        WsMessageInView::Message(msg) => seq![0u8] + ws_message_wire(msg),
        WsMessageInView::Response(id, r) => seq![1u8] + text_field(id) + match r {
            None => seq![1u8],
            Some(e) => seq![0u8] + text_field(e),
        },
        WsMessageInView::Timeout => seq![2u8],
        WsMessageInView::Error(e) => seq![3u8] + text_field(e),
    }
}

pub open spec fn p2p_message_in_encodable(m: P2pMessageInView) -> bool {
    match m {
        P2pMessageInView::Text(p, t) => text_fits(p) && text_fits(t),
        P2pMessageInView::Response(id, r) => text_fits(id) && (r matches Some((msg, _)) ==> text_fits(msg)),
    }
}

/// A peer-to-peer notice: the number of its kind, then its fields; a
/// failure is its message and the number of its kind.
pub open spec fn p2p_message_in_wire(m: P2pMessageInView) -> Seq<u8> {
    match m {
        P2pMessageInView::Text(p, t) => seq![0u8] + text_field(p) + text_field(t),
        P2pMessageInView::Response(id, r) => seq![1u8] + text_field(id) + match r {
            None => seq![1u8],
            Some((msg, k)) => seq![0u8] + text_field(msg) + seq![kind_code(k)],
        },
    }
}

fn text_fits_exec(s: &String) -> (r: bool)
    ensures
        r == text_fits(s@),
{
    s.as_str().as_bytes().len() <= 0xffff_ffff
}

/// The bytes of what the websocket service tells a lapp; `InvalidData`
/// where a length does not fit in a `u32`.
pub fn ws_message_in_to_vec(m: &WsMessageIn) -> (r: Result<Vec<u8>, WireError>)
    ensures
        r is Ok <==> ws_message_in_encodable(m@),
        r matches Ok(b) ==> b@ == ws_message_in_wire(m@),
        r matches Err(e) ==> e == WireError::InvalidData,
{
    let mut out: Vec<u8> = Vec::new();
    match m {
        WsMessageIn::Message(msg) => {
            out.push(0);
            if !push_ws_message(&mut out, msg) {
                return Err(WireError::InvalidData);
            }
        },
        WsMessageIn::Response { id, result } => {
            let fits = match result {
                Ok(()) => true,
                Err(e) => text_fits_exec(e),
            };
            if !text_fits_exec(id) || !fits {
                return Err(WireError::InvalidData);
            }
            out.push(1);
            push_text(&mut out, id);
            match result {
                Ok(()) => {
                    out.push(1);
                },
                Err(e) => {
                    out.push(0);
                    push_text(&mut out, e);
                },
            }
        },
        WsMessageIn::Timeout => {
            out.push(2);
        },
        WsMessageIn::Error(e) => {
            if !text_fits_exec(e) {
                return Err(WireError::InvalidData);
            }
            out.push(3);
            push_text(&mut out, e);
        },
    }
    assert(out@ =~= ws_message_in_wire(m@));
    Ok(out)
}

fn kind_byte(k: ErrorKind) -> (r: u8)
    ensures
        r == kind_code(k),
{
    match k {
        ErrorKind::GossipsubPublishError => 0,
        ErrorKind::ParsePeerIdError => 1,
        ErrorKind::DialError => 2,
        ErrorKind::WrongMultiaddr => 3,
        ErrorKind::Other => 4,
    }
}

/// The bytes of what the peer-to-peer service tells a lapp; `InvalidData`
/// where a length does not fit in a `u32`.
pub fn p2p_message_in_to_vec(m: &P2pMessageIn) -> (r: Result<Vec<u8>, WireError>)
    ensures
        r is Ok <==> p2p_message_in_encodable(m@),
        r matches Ok(b) ==> b@ == p2p_message_in_wire(m@),
        r matches Err(e) ==> e == WireError::InvalidData,
{
    let mut out: Vec<u8> = Vec::new();
    match m {
        P2pMessageIn::Text { peer_id, msg } => {
            if !text_fits_exec(peer_id) || !text_fits_exec(msg) {
                return Err(WireError::InvalidData);
            }
            out.push(0);
            push_text(&mut out, peer_id);
            push_text(&mut out, msg);
        },
        P2pMessageIn::Response { id, result } => {
            let fits = match result {
                Ok(()) => true,
                Err(e) => text_fits_exec(&e.message),
            };
            if !text_fits_exec(id) || !fits {
                return Err(WireError::InvalidData);
            }
            out.push(1);
            push_text(&mut out, id);
            match result {
                Ok(()) => {
                    out.push(1);
                },
                Err(e) => {
                    out.push(0);
                    push_text(&mut out, &e.message);
                    out.push(kind_byte(e.kind));
                },
            }
        },
    }
    assert(out@ =~= p2p_message_in_wire(m@));
    Ok(out)
}

pub open spec fn kind_of_code(b: u8) -> Option<ErrorKind> {
    if b == 0 {
        Some(ErrorKind::GossipsubPublishError)
    } else if b == 1 {
        Some(ErrorKind::ParsePeerIdError)
    } else if b == 2 {
        Some(ErrorKind::DialError)
    } else if b == 3 {
        Some(ErrorKind::WrongMultiaddr)
    } else if b == 4 {
        Some(ErrorKind::Other)
    } else {
        None
    }
}

pub open spec fn read_ws_message_in(data: Seq<u8>, pos: int) -> Option<(WsMessageInView, int)> {
    if 0 <= pos < data.len() {
        let tag = data[pos];
        if tag == 0 {
            match read_ws_message(data, pos + 1) {
                Some((m, p)) => Some((WsMessageInView::Message(m), p)),
                None => None,
            }
        } else if tag == 1 {
            match read_text(data, pos + 1) {
                Some((id, p1)) => if 0 <= p1 < data.len() && data[p1] == 1 {
                    Some((WsMessageInView::Response(id, None), p1 + 1))
                } else if 0 <= p1 < data.len() && data[p1] == 0 {
                    match read_text(data, p1 + 1) {
                        Some((e, p2)) => Some((WsMessageInView::Response(id, Some(e)), p2)),
                        None => None,
                    }
                } else {
                    None
                },
                None => None,
            }
        } else if tag == 2 {
            Some((WsMessageInView::Timeout, pos + 1))
        } else if tag == 3 {
            match read_text(data, pos + 1) {
                Some((e, p)) => Some((WsMessageInView::Error(e), p)),
                None => None,
            }
        } else {
            None
        }
    } else {
        None
    }
}

pub open spec fn read_p2p_message_in(data: Seq<u8>, pos: int) -> Option<(P2pMessageInView, int)> {
    if 0 <= pos < data.len() {
        let tag = data[pos];
        if tag == 0 {
            match read_text(data, pos + 1) {
                Some((peer, p1)) => match read_text(data, p1) {
                    Some((text, p2)) => Some((P2pMessageInView::Text(peer, text), p2)),
                    None => None,
                },
                None => None,
            }
        } else if tag == 1 {
            match read_text(data, pos + 1) {
                Some((id, p1)) => if 0 <= p1 < data.len() && data[p1] == 1 {
                    Some((P2pMessageInView::Response(id, None), p1 + 1))
                } else if 0 <= p1 < data.len() && data[p1] == 0 {
                    match read_text(data, p1 + 1) {
                        Some((msg, p2)) => if 0 <= p2 < data.len() {
                            match kind_of_code(data[p2]) {
                                Some(k) => Some((P2pMessageInView::Response(id, Some((msg, k))), p2 + 1)),
                                None => None,
                            }
                        } else {
                            None
                        },
                        None => None,
                    }
                } else {
                    None
                },
                None => None,
            }
        } else {
            None
        }
    } else {
        None
    }
}

/// What all of `data` holds as a websocket notice.
pub open spec fn ws_message_in_from_bytes(data: Seq<u8>) -> Option<WsMessageInView> {
    match read_ws_message_in(data, 0) {
        Some((m, n)) => if n == data.len() { Some(m) } else { None },
        None => None,
    }
}

/// What all of `data` holds as a peer-to-peer notice.
pub open spec fn p2p_message_in_from_bytes(data: Seq<u8>) -> Option<P2pMessageInView> {
    match read_p2p_message_in(data, 0) {
        Some((m, n)) => if n == data.len() { Some(m) } else { None },
        None => None,
    }
}

/// Reads a websocket notice, as the lapp does; `InvalidData` where `data`
/// holds anything else.
pub fn ws_message_in_from_slice(data: &[u8]) -> (r: Result<WsMessageIn, WireError>)
    ensures
        match r {
            Ok(m) => ws_message_in_from_bytes(data@) == Some(m@),
            Err(e) => ws_message_in_from_bytes(data@) is None && e == WireError::InvalidData,
        },
{
    if data.len() == 0 {
        return Err(WireError::InvalidData);
    }
    let tag = data[0];
    let (m, n) = if tag == 0 {
        match take_ws_message(data, 1) {
            Some((msg, p)) => (WsMessageIn::Message(msg), p),
            None => return Err(WireError::InvalidData),
        }
    } else if tag == 1 {
        let (id, p1) = match take_text(data, 1) {
            Some(x) => x,
            None => return Err(WireError::InvalidData),
        };
        if p1 < data.len() && data[p1] == 1 {
            (WsMessageIn::Response { id, result: Ok(()) }, p1 + 1)
        } else if p1 < data.len() && data[p1] == 0 {
            match take_text(data, p1 + 1) {
                Some((e, p2)) => (WsMessageIn::Response { id, result: Err(e) }, p2),
                None => return Err(WireError::InvalidData),
            }
        } else {
            return Err(WireError::InvalidData);
        }
    } else if tag == 2 {
        (WsMessageIn::Timeout, 1)
    } else if tag == 3 {
        match take_text(data, 1) {
            Some((e, p)) => (WsMessageIn::Error(e), p),
            None => return Err(WireError::InvalidData),
        }
    } else {
        return Err(WireError::InvalidData);
    };
    if n == data.len() {
        Ok(m)
    } else {
        Err(WireError::InvalidData)
    }
}

fn kind_of_byte(b: u8) -> (r: Option<ErrorKind>)
    ensures
        r == kind_of_code(b),
{
    if b == 0 {
        Some(ErrorKind::GossipsubPublishError)
    } else if b == 1 {
        Some(ErrorKind::ParsePeerIdError)
    } else if b == 2 {
        Some(ErrorKind::DialError)
    } else if b == 3 {
        Some(ErrorKind::WrongMultiaddr)
    } else if b == 4 {
        Some(ErrorKind::Other)
    } else {
        None
    }
}

/// Reads a peer-to-peer notice, as the lapp does; `InvalidData` where
/// `data` holds anything else.
pub fn p2p_message_in_from_slice(data: &[u8]) -> (r: Result<P2pMessageIn, WireError>)
    ensures
        match r {
            Ok(m) => p2p_message_in_from_bytes(data@) == Some(m@),
            Err(e) => p2p_message_in_from_bytes(data@) is None && e == WireError::InvalidData,
        },
{
    if data.len() == 0 {
        return Err(WireError::InvalidData);
    }
    let tag = data[0];
    let (m, n) = if tag == 0 {
        let (peer_id, p1) = match take_text(data, 1) {
            Some(x) => x,
            None => return Err(WireError::InvalidData),
        };
        match take_text(data, p1) {
            Some((msg, p2)) => (P2pMessageIn::Text { peer_id, msg }, p2),
            None => return Err(WireError::InvalidData),
        }
    } else if tag == 1 {
        let (id, p1) = match take_text(data, 1) {
            Some(x) => x,
            None => return Err(WireError::InvalidData),
        };
        if p1 < data.len() && data[p1] == 1 {
            (P2pMessageIn::Response { id, result: Ok(()) }, p1 + 1)
        } else if p1 < data.len() && data[p1] == 0 {
            let (message, p2) = match take_text(data, p1 + 1) {
                Some(x) => x,
                None => return Err(WireError::InvalidData),
            };
            if p2 >= data.len() {
                return Err(WireError::InvalidData);
            }
            match kind_of_byte(data[p2]) {
                Some(kind) => (P2pMessageIn::Response { id, result: Err(P2pError { message, kind }) }, p2 + 1),
                None => return Err(WireError::InvalidData),
            }
        } else {
            return Err(WireError::InvalidData);
        }
    } else {
        return Err(WireError::InvalidData);
    };
    if n == data.len() {
        Ok(m)
    } else {
        Err(WireError::InvalidData)
    }
}

/// A websocket notice reads back from its own bytes: what the server sends
/// is what the lapp reads.
pub proof fn lemma_ws_message_in_roundtrip(m: WsMessageInView)
    requires
        ws_message_in_encodable(m),
    ensures
        ws_message_in_from_bytes(ws_message_in_wire(m)) == Some(m),
{
    let w = ws_message_in_wire(m);
    assert(w.subrange(0, w.len() as int) =~= w);
    match m {
        WsMessageInView::Message(msg) => {
            let mw = ws_message_wire(msg);
            assert(w.subrange(1, w.len() as int) =~= mw);
            lemma_subrange_part(w, 0, w, 1, mw);
            lemma_read_ws_message(w, 1, msg);
            assert(w[0] == 0u8);
            assert(w.len() == 1 + mw.len());
            assert(read_ws_message_in(w, 0) == Some((m, w.len() as int)));
        },
        WsMessageInView::Response(id, r) => {
            lemma_field_len(encode_utf8(id));
            let a = text_field(id);
            assert(w.subrange(1, 1 + a.len() as int) =~= a);
            lemma_text_at(w, 0, w, 1, id);
            match r {
                None => {
                    assert(w[1 + a.len() as int] == 1u8);
                    assert(w.len() == 2 + a.len());
                },
                Some(e) => {
                    lemma_field_len(encode_utf8(e));
                    assert(w[1 + a.len() as int] == 0u8);
                    assert(w.subrange(2 + a.len() as int, w.len() as int) =~= text_field(e));
                    lemma_text_at(w, 0, w, 2 + a.len() as int, e);
                },
            }
        },
        WsMessageInView::Timeout => {
            assert(w[0] == 2u8);
            assert(w.len() == 1);
        },
        WsMessageInView::Error(e) => {
            lemma_field_len(encode_utf8(e));
            assert(w.subrange(1, w.len() as int) =~= text_field(e));
            lemma_text_at(w, 0, w, 1, e);
        },
    }
}

/// A peer-to-peer notice reads back from its own bytes: what the server
/// sends is what the lapp reads.
pub proof fn lemma_p2p_message_in_roundtrip(m: P2pMessageInView)
    requires
        p2p_message_in_encodable(m),
    ensures
        p2p_message_in_from_bytes(p2p_message_in_wire(m)) == Some(m),
{
    let w = p2p_message_in_wire(m);
    assert(w.subrange(0, w.len() as int) =~= w);
    match m {
        P2pMessageInView::Text(peer, text) => {
            lemma_field_len(encode_utf8(peer));
            lemma_field_len(encode_utf8(text));
            let a = text_field(peer);
            assert(w.subrange(1, 1 + a.len() as int) =~= a);
            lemma_text_at(w, 0, w, 1, peer);
            assert(w.subrange(1 + a.len() as int, w.len() as int) =~= text_field(text));
            lemma_text_at(w, 0, w, 1 + a.len() as int, text);
            assert(w[0] == 0u8);
            assert(w.len() == 1 + a.len() + text_field(text).len());
            assert(read_p2p_message_in(w, 0) == Some((m, w.len() as int)));
        },
        P2pMessageInView::Response(id, r) => {
            lemma_field_len(encode_utf8(id));
            let a = text_field(id);
            assert(w.subrange(1, 1 + a.len() as int) =~= a);
            lemma_text_at(w, 0, w, 1, id);
            match r {
                None => {
                    assert(w[1 + a.len() as int] == 1u8);
                    assert(w.len() == 2 + a.len());
                },
                Some((msg, k)) => {
                    lemma_field_len(encode_utf8(msg));
                    let b = text_field(msg);
                    assert(w[1 + a.len() as int] == 0u8);
                    assert(w.subrange(2 + a.len() as int, 2 + a.len() + b.len() as int) =~= b);
                    lemma_text_at(w, 0, w, 2 + a.len() as int, msg);
                    assert(w[2 + a.len() + b.len() as int] == kind_code(k));
                },
            }
        },
    }
}

// ---------------------------------------------------------------------------
// The layout is borsh's: each variant is written as its index in the
// declaration order of its enum, then its fields in order
// ---------------------------------------------------------------------------

/// A gossipsub request is its variant's index among `Dial`, `AddAddress`,
/// `Text`, `Close` (0 to 3), then its texts; `Close` is the index alone.
pub proof fn lemma_p2p_message_layout(a: Seq<char>, b: Seq<char>)
    ensures
        p2p_message_wire(P2pMessageView::Dial(a)) == seq![0u8] + text_field(a),
        p2p_message_wire(P2pMessageView::AddAddress(a)) == seq![1u8] + text_field(a),
        p2p_message_wire(P2pMessageView::Text(a, b)) == seq![2u8] + text_field(a) + text_field(b),
        p2p_message_wire(P2pMessageView::Close) == seq![3u8],
{
}

/// A gossipsub request is read by the same indices: the byte at `pos`
/// decides the variant, and the texts follow it.
pub proof fn lemma_read_p2p_message_by_index(data: Seq<u8>, pos: int)
    requires
        0 <= pos < data.len(),
    ensures
        data[pos] == 0 ==> read_p2p_message(data, pos) == match read_text(data, pos + 1) {
            Some((s, p)) => Some((P2pMessageView::Dial(s), p)),
            None => None,
        },
        data[pos] == 1 ==> read_p2p_message(data, pos) == match read_text(data, pos + 1) {
            Some((s, p)) => Some((P2pMessageView::AddAddress(s), p)),
            None => None,
        },
        data[pos] == 2 ==> read_p2p_message(data, pos) == match read_text(data, pos + 1) {
            Some((a, p1)) => match read_text(data, p1) {
                Some((b, p2)) => Some((P2pMessageView::Text(a, b), p2)),
                None => None,
            },
            None => None,
        },
        data[pos] == 3 ==> read_p2p_message(data, pos) == Some((P2pMessageView::Close, pos + 1)),
        data[pos] > 3 ==> read_p2p_message(data, pos) is None,
{
}

/// A websocket message is its variant's index among `Text`, `Binary`,
/// `Close` (0 to 2), then its text or bytes; `Close` is the index alone.
pub proof fn lemma_ws_message_layout(t: Seq<char>, b: Seq<u8>)
    ensures
        ws_message_wire(WsMessageView::Text(t)) == seq![0u8] + text_field(t),
        ws_message_wire(WsMessageView::Binary(b)) == seq![1u8] + field(b),
        ws_message_wire(WsMessageView::Close) == seq![2u8],
{
}

/// A websocket message is read by the same indices.
pub proof fn lemma_read_ws_message_by_index(data: Seq<u8>, pos: int)
    requires
        0 <= pos < data.len(),
    ensures
        data[pos] == 0 ==> read_ws_message(data, pos) == match read_text(data, pos + 1) {
            Some((s, p)) => Some((WsMessageView::Text(s), p)),
            None => None,
        },
        data[pos] == 1 ==> read_ws_message(data, pos) == match read_field(data, pos + 1) {
            Some((b, p)) => Some((WsMessageView::Binary(b), p)),
            None => None,
        },
        data[pos] == 2 ==> read_ws_message(data, pos) == Some((WsMessageView::Close, pos + 1)),
        data[pos] > 2 ==> read_ws_message(data, pos) is None,
{
}

/// A route is its variant's index among `Http`, `Websocket`, `Gossipsub`
/// (0 to 2), then the body, or the id and the message laid out as above.
pub proof fn lemma_route_layout(id: Seq<char>, w: WsMessageView, g: P2pMessageView)
    ensures
        route_wire(RouteView::Http(id)) == seq![0u8] + text_field(id),
        route_wire(RouteView::Websocket(id, w)) == seq![1u8] + text_field(id) + ws_message_wire(w),
        route_wire(RouteView::Gossipsub(id, g)) == seq![2u8] + text_field(id) + p2p_message_wire(g),
{
}

/// A lapp's one route asking its gossipsub service to close, under any id,
/// is the count 1, the route index 2, the id and the `Close` index 3; the
/// server reads exactly that route from these bytes.
pub proof fn lemma_read_gossipsub_close(id: Seq<char>)
    requires
        text_fits(id),
    ensures
        routes_from_bytes(u32_le(1) + seq![2u8] + text_field(id) + seq![3u8])
            == Some(seq![RouteView::Gossipsub(id, P2pMessageView::Close)]),
{
    let r = RouteView::Gossipsub(id, P2pMessageView::Close);
    let rs = seq![r];
    assert(rs.drop_last() =~= Seq::<RouteView>::empty());
    assert(route_items_wire(Seq::<RouteView>::empty()) == Seq::<u8>::empty());
    assert(route_items_wire(rs) == route_items_wire(rs.drop_last()) + route_wire(rs.last()));
    assert(routes_wire(rs) =~= u32_le(1) + seq![2u8] + text_field(id) + seq![3u8]);
    assert(routes_encodable(rs));
    lemma_routes_roundtrip(rs);
}

/// A websocket notice is its variant's index among `Message`, `Response`,
/// `Timeout`, `Error` (0 to 3), then its fields; a client's message inside a
/// notice is laid out as in a route, and an outcome is `1` for success, or
/// `0` and the failure's text.
pub proof fn lemma_ws_message_in_layout(m: WsMessageView, id: Seq<char>, e: Seq<char>)
    ensures
        ws_message_in_wire(WsMessageInView::Message(m)) == seq![0u8] + ws_message_wire(m),
        ws_message_in_wire(WsMessageInView::Message(WsMessageView::Close)) == seq![0u8, 2u8],
        ws_message_in_wire(WsMessageInView::Response(id, None)) == seq![1u8] + text_field(id) + seq![1u8],
        ws_message_in_wire(WsMessageInView::Response(id, Some(e))) == seq![1u8] + text_field(id) + seq![0u8] + text_field(e),
        ws_message_in_wire(WsMessageInView::Timeout) == seq![2u8],
        ws_message_in_wire(WsMessageInView::Error(e)) == seq![3u8] + text_field(e),
{
    assert(seq![0u8] + seq![2u8] =~= seq![0u8, 2u8]);
}

/// A websocket notice whose first byte is 0 holds the client's message, read
/// as in a route.
pub proof fn lemma_read_ws_message_in_message(data: Seq<u8>, pos: int)
    requires
        0 <= pos < data.len(),
        data[pos] == 0,
    ensures
        read_ws_message_in(data, pos) == match read_ws_message(data, pos + 1) {
            Some((m, p)) => Some((WsMessageInView::Message(m), p)),
            None => None,
        },
{
}

/// The kind of a peer-to-peer failure is written as its index among
/// `GossipsubPublishError`, `ParsePeerIdError`, `DialError`,
/// `WrongMultiaddr`, `Other` (0 to 4), and read back by the same index.
pub proof fn lemma_kind_index(k: ErrorKind, b: u8)
    ensures
        kind_code(k) == match k {
            ErrorKind::GossipsubPublishError => 0u8,
            ErrorKind::ParsePeerIdError => 1u8,
            ErrorKind::DialError => 2u8,
            ErrorKind::WrongMultiaddr => 3u8,
            ErrorKind::Other => 4u8,
        },
        kind_of_code(kind_code(k)) == Some(k),
        b <= 4 ==> (kind_of_code(b) matches Some(j) && kind_code(j) == b),
        b > 4 ==> kind_of_code(b) is None,
{
}

/// A peer-to-peer notice is its variant's index among `Text`, `Response`
/// (0 and 1), then its fields; a failure ends with its kind's index.
pub proof fn lemma_p2p_message_in_layout(a: Seq<char>, b: Seq<char>, k: ErrorKind)
    ensures
        p2p_message_in_wire(P2pMessageInView::Text(a, b)) == seq![0u8] + text_field(a) + text_field(b),
        p2p_message_in_wire(P2pMessageInView::Response(a, None)) == seq![1u8] + text_field(a) + seq![1u8],
        p2p_message_in_wire(P2pMessageInView::Response(a, Some((b, k))))
            == seq![1u8] + text_field(a) + seq![0u8] + text_field(b) + seq![kind_code(k)],
        p2p_message_in_wire(P2pMessageInView::Response(a, Some((b, ErrorKind::DialError)))).last() == 2u8,
        p2p_message_in_wire(P2pMessageInView::Response(a, Some((b, ErrorKind::ParsePeerIdError)))).last() == 1u8,
{
}

} // verus!
