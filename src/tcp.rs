//! TCP header (fixed part, without options).
use vstd::prelude::*;

use crate::layout::{bit_pos, header_bytes, wf_layout, FieldKind, FieldSpec, Header};

verus! {

pub const SRC_PORT: usize = 0;

pub const DST_PORT: usize = 1;

pub const SEQ: usize = 2;

pub const ACK: usize = 3;

pub const DATA_OFFSET: usize = 4;

pub const RESERVED: usize = 5;

pub const URG: usize = 6;

pub const ACK_FLAG: usize = 7;

pub const PSH: usize = 8;

pub const RST: usize = 9;

pub const SYN: usize = 10;

pub const FIN: usize = 11;

pub const WINDOW: usize = 12;

pub const CHECKSUM: usize = 13;

pub const URG_PTR: usize = 14;

/// Protocol number of TCP in IPv4 and IPv6 headers.
pub const PROTO_TCP: u8 = 6;

/// Size of the fixed header in bytes.
pub const TCP_HEADER_LEN: usize = 20;

/// A TCP header starting at byte `offset` of a frame.
#[derive(Debug, Clone, Copy, PartialEq, Eq, Structural)]
pub struct Tcp {
    pub offset: usize,
}

pub open spec fn tcp_layout() -> Seq<FieldSpec> {
    seq![
        FieldSpec { name: "src_port", bit_width: 16, kind: FieldKind::Scalar },
        FieldSpec { name: "dst_port", bit_width: 16, kind: FieldKind::Scalar },
        FieldSpec { name: "seq", bit_width: 32, kind: FieldKind::Scalar },
        FieldSpec { name: "ack", bit_width: 32, kind: FieldKind::Scalar },
        FieldSpec { name: "data_offset", bit_width: 4, kind: FieldKind::Scalar },
        FieldSpec { name: "res", bit_width: 6, kind: FieldKind::Scalar },
        FieldSpec { name: "urg", bit_width: 1, kind: FieldKind::Scalar },
        FieldSpec { name: "ack_flag", bit_width: 1, kind: FieldKind::Scalar },
        FieldSpec { name: "psh", bit_width: 1, kind: FieldKind::Scalar },
        FieldSpec { name: "rst", bit_width: 1, kind: FieldKind::Scalar },
        FieldSpec { name: "syn", bit_width: 1, kind: FieldKind::Scalar },
        FieldSpec { name: "fin", bit_width: 1, kind: FieldKind::Scalar },
        FieldSpec { name: "win", bit_width: 16, kind: FieldKind::Scalar },
        FieldSpec { name: "chk", bit_width: 16, kind: FieldKind::Scalar },
        FieldSpec { name: "urg_ptr", bit_width: 16, kind: FieldKind::Scalar },
    ]
}

pub proof fn lemma_tcp_layout()
    ensures
        wf_layout(tcp_layout()),
        header_bytes(tcp_layout()) == TCP_HEADER_LEN,
{
    let l = tcp_layout();
    assert(bit_pos(l, 0) == 0);
    assert(bit_pos(l, 1) == 16);
    assert(bit_pos(l, 2) == 32);
    assert(bit_pos(l, 3) == 64);
    assert(bit_pos(l, 4) == 96);
    assert(bit_pos(l, 5) == 100);
    assert(bit_pos(l, 6) == 106);
    assert(bit_pos(l, 7) == 107);
    assert(bit_pos(l, 8) == 108);
    assert(bit_pos(l, 9) == 109);
    assert(bit_pos(l, 10) == 110);
    assert(bit_pos(l, 11) == 111);
    assert(bit_pos(l, 12) == 112);
    assert(bit_pos(l, 13) == 128);
    assert(bit_pos(l, 14) == 144);
    assert(bit_pos(l, 15) == 160);
}

impl Header for Tcp {
    open spec fn spec_layout() -> Seq<FieldSpec> {
        tcp_layout()
    }

    open spec fn spec_offset(&self) -> usize {
        self.offset
    }

    proof fn lemma_layout_wf() {
        lemma_tcp_layout();
    }

    fn layout() -> (r: Vec<FieldSpec>) {
        proof {
            lemma_tcp_layout();
        }
        let r = vec![
            FieldSpec { name: "src_port", bit_width: 16, kind: FieldKind::Scalar },
            FieldSpec { name: "dst_port", bit_width: 16, kind: FieldKind::Scalar },
            FieldSpec { name: "seq", bit_width: 32, kind: FieldKind::Scalar },
            FieldSpec { name: "ack", bit_width: 32, kind: FieldKind::Scalar },
            FieldSpec { name: "data_offset", bit_width: 4, kind: FieldKind::Scalar },
            FieldSpec { name: "res", bit_width: 6, kind: FieldKind::Scalar },
            FieldSpec { name: "urg", bit_width: 1, kind: FieldKind::Scalar },
            FieldSpec { name: "ack_flag", bit_width: 1, kind: FieldKind::Scalar },
            FieldSpec { name: "psh", bit_width: 1, kind: FieldKind::Scalar },
            FieldSpec { name: "rst", bit_width: 1, kind: FieldKind::Scalar },
            FieldSpec { name: "syn", bit_width: 1, kind: FieldKind::Scalar },
            FieldSpec { name: "fin", bit_width: 1, kind: FieldKind::Scalar },
            FieldSpec { name: "win", bit_width: 16, kind: FieldKind::Scalar },
            FieldSpec { name: "chk", bit_width: 16, kind: FieldKind::Scalar },
            FieldSpec { name: "urg_ptr", bit_width: 16, kind: FieldKind::Scalar },
        ];
        assert(r@ =~= tcp_layout());
        r
    }

    fn offset(&self) -> (r: usize) {
        self.offset
    }
}

} // verus!
