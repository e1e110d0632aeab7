//! Plain value types exchanged with a live-trading endpoint, and the
//! polling cadence for each bar interval.

use vstd::prelude::*;
use vstd::string::StringSliceAdditionalSpecFns;

verus! {

/// An order acknowledgement as a set of plain fields.
#[derive(Debug, Clone)]
pub struct OrderResponse {
    /// Exchange order id.
    pub order_id: i64,
    /// Instrument symbol.
    pub symbol: String,
    /// Order status.
    pub status: String,
    /// Order type.
    pub order_type: String,
    /// Order side.
    pub side: String,
    /// Original quantity, as reported.
    pub orig_qty: String,
    /// Executed quantity, as reported.
    pub executed_qty: String,
    /// Average fill price, as reported.
    pub avg_price: String,
}

/// An error reply from the endpoint.
#[derive(Debug, Clone)]
pub struct BinanceError {
    /// Error code.
    pub code: i64,
    /// Error message.
    pub msg: String,
}

/// Polling cadence in seconds for a bar interval, by its byte spelling:
/// just under the bar length, defaulting to the one-minute cadence.
pub open spec fn poll_seconds_of(bs: Seq<u8>) -> int {
    if bs =~= seq![51u8, 109u8] {
        178
    } else if bs =~= seq![53u8, 109u8] {
        298
    } else if bs =~= seq![49u8, 53u8, 109u8] {
        898
    } else if bs =~= seq![51u8, 48u8, 109u8] {
        1798
    } else {
        58
    }
}

/// How long to sleep between polls for an interval such as "1m" or "15m".
pub fn poll_seconds(interval: &str) -> (r: u64)
    ensures
        r == poll_seconds_of(interval.spec_bytes()),
{
    let bs: &[u8] = interval.as_bytes();
    let n: usize = bs.len();
    proof {
        assert(bs@ == interval.spec_bytes());
    }
    if n == 2 {
        let b0: u8 = *vstd::slice::slice_index_get(bs, 0);
        let b1: u8 = *vstd::slice::slice_index_get(bs, 1);
        if b1 == 109 {
            if b0 == 51 {
                proof {
                    assert(bs@ =~= seq![51u8, 109u8]);
                }
                178
            } else if b0 == 53 {
                proof {
                    assert(bs@ =~= seq![53u8, 109u8]);
                    assert(!(bs@ =~= seq![51u8, 109u8]));
                }
                298
            } else {
                proof {
                    assert(!(bs@ =~= seq![51u8, 109u8]));
                    assert(!(bs@ =~= seq![53u8, 109u8]));
                    assert(!(bs@ =~= seq![49u8, 53u8, 109u8]));
                    assert(!(bs@ =~= seq![51u8, 48u8, 109u8]));
                }
                58
            }
        } else {
            proof {
                assert(!(bs@ =~= seq![51u8, 109u8]));
                assert(!(bs@ =~= seq![53u8, 109u8]));
                assert(!(bs@ =~= seq![49u8, 53u8, 109u8]));
                assert(!(bs@ =~= seq![51u8, 48u8, 109u8]));
            }
            58
        }
    } else if n == 3 {
        let b0: u8 = *vstd::slice::slice_index_get(bs, 0);
        let b1: u8 = *vstd::slice::slice_index_get(bs, 1);
        let b2: u8 = *vstd::slice::slice_index_get(bs, 2);
        if b0 == 49 && b1 == 53 && b2 == 109 {
            proof {
                assert(bs@ =~= seq![49u8, 53u8, 109u8]);
                assert(!(bs@ =~= seq![51u8, 109u8]));
                assert(!(bs@ =~= seq![53u8, 109u8]));
            }
            898
        } else if b0 == 51 && b1 == 48 && b2 == 109 {
            proof {
                assert(bs@ =~= seq![51u8, 48u8, 109u8]);
                assert(!(bs@ =~= seq![51u8, 109u8]));
                assert(!(bs@ =~= seq![53u8, 109u8]));
                assert(!(bs@ =~= seq![49u8, 53u8, 109u8]));
            }
            1798
        } else {
            proof {
                assert(!(bs@ =~= seq![51u8, 109u8]));
                assert(!(bs@ =~= seq![53u8, 109u8]));
                assert(!(bs@ =~= seq![49u8, 53u8, 109u8]));
                assert(!(bs@ =~= seq![51u8, 48u8, 109u8]));
            }
            58
        }
    } else {
        proof {
            assert(!(bs@ =~= seq![51u8, 109u8]));
            assert(!(bs@ =~= seq![53u8, 109u8]));
            assert(!(bs@ =~= seq![49u8, 53u8, 109u8]));
            assert(!(bs@ =~= seq![51u8, 48u8, 109u8]));
        }
        58
    }
}

} // verus!
