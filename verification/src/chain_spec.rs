//! Selection of a chain configuration by the name given on the command
//! line.

use vstd::prelude::*;
use vstd::string::StringSliceAdditionalSpecFns;

verus! {

/// The chain configurations a node can start from.
#[derive(Clone, Copy, PartialEq, Eq, Structural, Debug)]
pub enum Alternative {
    /// The current runtime, with just one development authority.
    Development,
    /// The current runtime, with the simple local-testnet authorities.
    LocalTestnet,
}

/// The bytes of `"dev"`.
pub open spec fn dev_name() -> Seq<u8> {
    seq![0x64u8, 0x65u8, 0x76u8]
}

/// The bytes of `"local"`.
pub open spec fn local_name() -> Seq<u8> {
    seq![0x6cu8, 0x6fu8, 0x63u8, 0x61u8, 0x6cu8]
}

impl Alternative {
    /// Which configuration a command-line chain name selects: `"dev"`,
    /// and `""` or `"local"`, all other names refused.
    pub fn from(s: &str) -> (r: Option<Alternative>)
        ensures
            r == if s.spec_bytes() == dev_name() {
                Some(Alternative::Development)
            } else if s.spec_bytes() == Seq::<u8>::empty() || s.spec_bytes() == local_name() {
                Some(Alternative::LocalTestnet)
            } else {
                None::<Alternative>
            },
    {
        let b = s.as_bytes();
        if b.len() == 3 && b[0] == 0x64 && b[1] == 0x65 && b[2] == 0x76 {
            proof {
                assert(s.spec_bytes() =~= dev_name());
            }
            Some(Alternative::Development)
        } else if b.len() == 0 {
            proof {
                assert(s.spec_bytes() =~= Seq::<u8>::empty());
                assert(s.spec_bytes() != dev_name());
            }
            Some(Alternative::LocalTestnet)
        } else if b.len() == 5 && b[0] == 0x6c && b[1] == 0x6f && b[2] == 0x63 && b[3] == 0x61
            && b[4] == 0x6c {
            proof {
                assert(s.spec_bytes() =~= local_name());
                assert(s.spec_bytes() != dev_name());
            }
            Some(Alternative::LocalTestnet)
        } else {
            proof {
                if s.spec_bytes() == dev_name() {
                    assert(b@.len() == 3 && b@[0] == 0x64 && b@[1] == 0x65 && b@[2] == 0x76);
                }
                if s.spec_bytes() == local_name() {
                    assert(b@.len() == 5 && b@[0] == 0x6c && b@[1] == 0x6f && b@[2] == 0x63
                        && b@[3] == 0x61 && b@[4] == 0x6c);
                }
            }
            None
        }
    }
}

} // verus!
