use vstd::prelude::*;
use vstd::utf8::{decode_utf8, encode_utf8, valid_utf8};

use crate::block::Block;
use crate::error::Error;
use crate::merkle::Merkle;
use crate::reader::{parse_bytes, parse_u32, read_string, read_u32, Reader, Readable};
use crate::transaction::Transaction;
use crate::writer::{be_u32, encode_bytes, write_string, write_u32, Writable};

verus! {

/// The kind of a network message, sent first as a big-endian `u32`.
#[derive(Debug, Clone, Copy, PartialEq, Eq, Structural)]
pub enum PacketKind {
    Unknown,
    Transaction,
    Block,
    AskMerkle,
    ReceiveMerkle,
}

pub open spec fn kind_code(k: PacketKind) -> u32 {
    match k {
        PacketKind::Unknown => 0,
        PacketKind::Transaction => 1,
        PacketKind::Block => 2,
        PacketKind::AskMerkle => 3,
        PacketKind::ReceiveMerkle => 4,
    }
}

impl PacketKind {
    pub fn code(&self) -> (r: u32)
        ensures
            r == kind_code(*self),
    {
        match self {
            PacketKind::Unknown => 0,
            PacketKind::Transaction => 1,
            PacketKind::Block => 2,
            PacketKind::AskMerkle => 3,
            PacketKind::ReceiveMerkle => 4,
        }
    }
}

/// One network message: a transaction, a block, a request for the tree with the address to
/// answer to, or a tree.
#[derive(Debug)]
pub enum Message {
    Transaction(Transaction),
    Block(Block),
    AskMerkle(String),
    ReceiveMerkle(Merkle),
}

/// The bytes of a message: its kind, then the body.
pub fn transaction_message(transaction: &Transaction) -> (r: Vec<u8>)
    ensures
        r@ == be_u32(1) + Transaction::encode(transaction@),
{
    let mut msg: Vec<u8> = Vec::new();
    write_u32(&mut msg, PacketKind::Transaction.code());
    transaction.to_writer(&mut msg);
    assert(msg@ =~= be_u32(1) + Transaction::encode(transaction@));
    msg
}

pub fn block_message(block: &Block) -> (r: Vec<u8>)
    ensures
        r@ == be_u32(2) + Block::encode(block@),
{
    let mut msg: Vec<u8> = Vec::new();
    write_u32(&mut msg, PacketKind::Block.code());
    block.to_writer(&mut msg);
    assert(msg@ =~= be_u32(2) + Block::encode(block@));
    msg
}

pub fn ask_merkle_message(callback_addr: String) -> (r: Vec<u8>)
    ensures
        r@ == be_u32(3) + encode_bytes(encode_utf8(callback_addr@)),
{
    let mut msg: Vec<u8> = Vec::new();
    write_u32(&mut msg, PacketKind::AskMerkle.code());
    write_string(&mut msg, callback_addr);
    msg
}

pub fn merkle_message(merkle: &Merkle) -> (r: Vec<u8>)
    ensures
        r@ == be_u32(4) + Merkle::encode(merkle@),
{
    let mut msg: Vec<u8> = Vec::new();
    write_u32(&mut msg, PacketKind::ReceiveMerkle.code());
    merkle.to_writer(&mut msg);
    assert(msg@ =~= be_u32(4) + Merkle::encode(merkle@));
    msg
}

/// Reads one message. A kind other than 1 to 4, or a body that does not parse, is refused.
pub fn parse_message(bytes: &Vec<u8>) -> (r: Result<Message, Error>)
    ensures
        match parse_u32(bytes@) {
            Some((1, rest)) => match Transaction::parse(rest) {
                Some((v, _)) => r matches Ok(Message::Transaction(t)) && t@ == v,
                None => r matches Err(e) && crate::reader::codec_error(e),
            },
            Some((2, rest)) => match Block::parse(rest) {
                Some((v, _)) => r matches Ok(Message::Block(b)) && b@ == v,
                None => r matches Err(e) && crate::reader::codec_error(e),
            },
            Some((3, rest)) => match parse_bytes(rest) {
                Some((b, _)) => if valid_utf8(b) {
                    r matches Ok(Message::AskMerkle(a)) && a@ == decode_utf8(b)
                } else {
                    r == Err::<Message, Error>(Error::InvalidFormat)
                },
                None => r matches Err(e) && crate::reader::codec_error(e),
            },
            Some((4, rest)) => match Merkle::parse(rest) {
                Some((v, _)) => r matches Ok(Message::ReceiveMerkle(m)) && m@ == v,
                None => r matches Err(e) && crate::reader::codec_error(e),
            },
            _ => r matches Err(e) && crate::reader::codec_error(e),
        },
{
    let mut reader = Reader::new(bytes.clone());
    let mut kind: u32 = 0;
    if read_u32(&mut reader, &mut kind).is_err() {
        return Err(Error::InvalidFormat);
    }
    if kind == 1 {
        match Transaction::from_reader(&mut reader) {
            Ok(t) => Ok(Message::Transaction(t)),
            Err(e) => Err(e),
        }
    } else if kind == 2 {
        match Block::from_reader(&mut reader) {
            Ok(b) => Ok(Message::Block(b)),
            Err(e) => Err(e),
        }
    } else if kind == 3 {
        let mut addr = String::new();
        match read_string(&mut reader, &mut addr) {
            Ok(_) => Ok(Message::AskMerkle(addr)),
            Err(e) => Err(e),
        }
    } else if kind == 4 {
        match Merkle::from_reader(&mut reader) {
            Ok(m) => Ok(Message::ReceiveMerkle(m)),
            Err(e) => Err(e),
        }
    } else {
        Err(Error::InvalidFormat)
    }
}

} // verus!
