//! The gossip wire messages.
use vstd::prelude::*;
use crate::block::{Block, BlockView};
use crate::transaction::{Transaction, TxView};

verus! {

#[derive(Debug, Clone)]
pub struct Blockmsg {
    pub block: Block,
}

#[derive(Debug, Clone)]
pub struct GetDatamsg {
    pub kind: String,
    pub id: String,
}

#[derive(Debug, Clone)]
pub struct Invmsg {
    pub kind: String,
    pub items: Vec<String>,
}

#[derive(Debug, Clone)]
pub struct Txmsg {
    pub transaction: Transaction,
}

#[derive(Debug, Clone)]
pub struct Versionmsg {
    pub version: i32,
    pub best_height: i32,
}

/// A message between peers.
#[derive(Debug, Clone)]
pub enum Message {
    Version(Versionmsg),
    Tx(Txmsg),
    GetData(GetDatamsg),
    GetBlock,
    Inv(Invmsg),
    Block(Blockmsg),
}

/// The mathematical value of a message.
pub enum MsgView {
    Version { version: i32, best_height: i32 },
    Tx { transaction: TxView },
    GetData { kind: Seq<char>, id: Seq<char> },
    GetBlock,
    Inv { kind: Seq<char>, items: Seq<Seq<char>> },
    Block { block: BlockView },
}

pub open spec fn strings_view(v: Seq<String>) -> Seq<Seq<char>> {
    v.map_values(|s: String| s@)
}

impl View for Message {
    type V = MsgView;

    open spec fn view(&self) -> MsgView {
        match self {
            Message::Version(m) => MsgView::Version { version: m.version, best_height: m.best_height },
            Message::Tx(m) => MsgView::Tx { transaction: m.transaction@ },
            Message::GetData(m) => MsgView::GetData { kind: m.kind@, id: m.id@ },
            Message::GetBlock => MsgView::GetBlock,
            Message::Inv(m) => MsgView::Inv { kind: m.kind@, items: strings_view(m.items@) },
            Message::Block(m) => MsgView::Block { block: m.block@ },
        }
    }
}

/// A message to be delivered to a peer.
#[derive(Debug, Clone)]
pub struct Outbound {
    pub peer: String,
    pub message: Message,
}

pub open spec fn outbox_view(v: Seq<Outbound>) -> Seq<(Seq<char>, MsgView)> {
    v.map_values(|o: Outbound| (o.peer@, o.message@))
}

} // verus!
