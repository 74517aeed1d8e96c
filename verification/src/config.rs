//! Settings of the agent.

use vstd::prelude::*;

use crate::text::{decimal, push_decimal};

verus! {

/// Chunk size unless it is set, in bytes.
pub const DEFAULT_CHUNK_SIZE_BYTES: usize = 16_384;

/// Spool capacity unless it is set, in bytes.
pub const DEFAULT_SPOOL_CAPACITY_BYTES: usize = 1_048_576;

/// Limit on concurrent streams unless it is set: none.
pub const DEFAULT_MAX_CONCURRENT: usize = 0;

/// Limit on waiting streams unless it is set.
pub const DEFAULT_MAX_PENDING: usize = 100;

/// Largest chunk size that the length field of a chunk can hold.
pub const MAX_CHUNK_SIZE_BYTES: usize = 65_535;

/// Congestion control of the transport.
#[derive(Debug, Clone, Copy, PartialEq, Eq, Structural)]
pub enum CongestionAlgo {
    /// Loss based.
    NewReno,
    /// Bandwidth and round-trip time based.
    Bbr,
    /// Loss based with cubic growth.
    Cubic,
}

impl Default for CongestionAlgo {
    fn default() -> (r: Self)
        ensures
            r == CongestionAlgo::NewReno,
    {
        CongestionAlgo::NewReno
    }
}

impl CongestionAlgo {
    /// The transport's name for it.
    pub fn for_transport(self) -> (r: crate::quic::CongestionAlgo)
        ensures
            match self {
                CongestionAlgo::NewReno => r == crate::quic::CongestionAlgo::NewReno,
                CongestionAlgo::Bbr => r == crate::quic::CongestionAlgo::Bbr,
                CongestionAlgo::Cubic => r == crate::quic::CongestionAlgo::Cubic,
            },
    {
        match self {
            CongestionAlgo::NewReno => crate::quic::CongestionAlgo::NewReno,
            CongestionAlgo::Bbr => crate::quic::CongestionAlgo::Bbr,
            CongestionAlgo::Cubic => crate::quic::CongestionAlgo::Cubic,
        }
    }
}

/// Settings that are checked before the agent starts.
#[derive(Debug, Clone, Copy, PartialEq, Eq, Structural)]
pub struct Config {
    /// Most bits per second of outbound streams, when there is a limit.
    pub bw_cap_bps: Option<u64>,
    /// Data bytes per chunk.
    pub chunk_size_bytes: usize,
    /// Spool capacity per outbound stream.
    pub spool_capacity_bytes: usize,
    /// Most concurrent streams; zero means no limit.
    pub max_concurrent: usize,
    /// Most waiting streams.
    pub max_pending: usize,
    /// Congestion control.
    pub congestion: CongestionAlgo,
}

/// The unit in which a bandwidth is shown.
#[derive(Debug, Clone, Copy, PartialEq, Eq, Structural)]
pub enum BandwidthUnit {
    Kbps,
    Mbps,
    Gbps,
}

impl BandwidthUnit {
    /// Bits per second of one unit.
    pub open spec fn bits(self) -> nat {
        match self {
            BandwidthUnit::Kbps => 1_000,
            BandwidthUnit::Mbps => 1_000_000,
            BandwidthUnit::Gbps => 1_000_000_000,
        }
    }

    /// Bits per second of one unit.
    pub fn multiplier(self) -> (r: u64)
        ensures
            r == self.bits(),
    {
        match self {
            BandwidthUnit::Kbps => 1_000,
            BandwidthUnit::Mbps => 1_000_000,
            BandwidthUnit::Gbps => 1_000_000_000,
        }
    }
}

impl Default for Config {
    fn default() -> (r: Self)
        ensures
            r == (Config {
                bw_cap_bps: None,
                chunk_size_bytes: DEFAULT_CHUNK_SIZE_BYTES,
                spool_capacity_bytes: DEFAULT_SPOOL_CAPACITY_BYTES,
                max_concurrent: DEFAULT_MAX_CONCURRENT,
                max_pending: DEFAULT_MAX_PENDING,
                congestion: CongestionAlgo::NewReno,
            }),
    {
        Config {
            bw_cap_bps: None,
            chunk_size_bytes: DEFAULT_CHUNK_SIZE_BYTES,
            spool_capacity_bytes: DEFAULT_SPOOL_CAPACITY_BYTES,
            max_concurrent: DEFAULT_MAX_CONCURRENT,
            max_pending: DEFAULT_MAX_PENDING,
            congestion: CongestionAlgo::NewReno,
        }
    }
}

impl Config {
    /// What is wrong with the settings, if anything.
    pub open spec fn fault(self) -> Option<Seq<char>> {
        if self.chunk_size_bytes == 0 || self.chunk_size_bytes > MAX_CHUNK_SIZE_BYTES {
            Some(
                "--chunk-size-bytes must be 1..=65535, got "@ + decimal(
                    self.chunk_size_bytes as nat,
                ),
            )
        } else if self.spool_capacity_bytes == 0 {
            Some("--spool-capacity-bytes must be > 0"@)
        } else {
            None
        }
    }

    /// Checks the settings; gives what is wrong with them.
    pub fn validate(&self) -> (r: Result<(), String>)
        ensures
            match r {
                Ok(_) => self.fault() is None,
                Err(e) => self.fault() == Some(e@),
            },
    {
        if self.chunk_size_bytes == 0 || self.chunk_size_bytes > MAX_CHUNK_SIZE_BYTES {
            let mut s: String = "--chunk-size-bytes must be 1..=65535, got ".to_owned();
            push_decimal(&mut s, self.chunk_size_bytes as u64);
            return Err(s);
        }
        if self.spool_capacity_bytes == 0 {
            return Err("--spool-capacity-bytes must be > 0".to_owned());
        }
        Ok(())
    }

    /// The most streams that may wait: as many as are set, but no more than a hundred,
    /// so that the answer to a request can list them all.
    pub fn pending_limit(&self) -> (r: usize)
        ensures
            r == (if self.max_pending <= DEFAULT_MAX_PENDING {
                self.max_pending
            } else {
                DEFAULT_MAX_PENDING
            }),
    {
        if self.max_pending <= DEFAULT_MAX_PENDING {
            self.max_pending
        } else {
            DEFAULT_MAX_PENDING
        }
    }

    /// The unit in which the bandwidth limit is shown, when there is one: the largest
    /// one of which it is at least one, or else the smallest.
    pub fn bw_cap_unit(&self) -> (r: Option<BandwidthUnit>)
        ensures
            match self.bw_cap_bps {
                None => r is None,
                Some(bps) => r == Some(
                    if bps >= 1_000_000_000 {
                        BandwidthUnit::Gbps
                    } else if bps >= 1_000_000 {
                        BandwidthUnit::Mbps
                    } else {
                        BandwidthUnit::Kbps
                    },
                ),
            },
    {
        match self.bw_cap_bps {
            None => None,
            Some(bps) => {
                if bps >= 1_000_000_000 {
                    Some(BandwidthUnit::Gbps)
                } else if bps >= 1_000_000 {
                    Some(BandwidthUnit::Mbps)
                } else {
                    Some(BandwidthUnit::Kbps)
                }
            },
        }
    }
}

/// Settings are refused exactly when a chunk could hold nothing or more than its length
/// field can say, or the spool could hold nothing.
pub proof fn law_usable_settings_are_accepted(c: Config)
    ensures
        c.fault() is None <==> 1 <= c.chunk_size_bytes <= 65_535 && c.spool_capacity_bytes >= 1,
{
}

/// Each unit is a thousand of the one before it, the first one a thousand bits.
pub proof fn law_units_are_thousands()
    ensures
        BandwidthUnit::Kbps.bits() == 1_000,
        BandwidthUnit::Mbps.bits() == 1_000 * BandwidthUnit::Kbps.bits(),
        BandwidthUnit::Gbps.bits() == 1_000 * BandwidthUnit::Mbps.bits(),
{
}

} // verus!
