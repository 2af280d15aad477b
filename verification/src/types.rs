//! The leaf payload types of the record value model, each held as the
//! plain values that the value operations read: day counts, microsecond
//! and millisecond counts, offsets, digits, addresses and bytes.

use vstd::prelude::*;
use core::cmp::Ordering;

use crate::bits::{bytes_cmp, bytes_cmp_spec, str_cmp, string_bytes};

verus! {

/// A fixed offset from UTC, in seconds.
#[derive(Clone, Copy, Debug, PartialEq, Eq, Structural)]
pub struct Timezone {
    pub offset_seconds: i32,
}

/// A calendar day in a timezone: days from the Unix epoch, 1 January
/// 1970.
#[derive(Clone, Copy, Debug, PartialEq, Eq, Structural)]
pub struct Date {
    pub days: i64,
    pub timezone: Timezone,
}

/// A calendar day with no timezone attached.
#[derive(Clone, Copy, Debug, PartialEq, Eq, Structural)]
pub struct DateWithoutTimezone {
    pub days: i64,
}

/// A time of day in a timezone: microseconds from midnight.
#[derive(Clone, Copy, Debug, PartialEq, Eq, Structural)]
pub struct Time {
    pub micros: u64,
    pub timezone: Timezone,
}

/// A time of day with no timezone attached.
#[derive(Clone, Copy, Debug, PartialEq, Eq, Structural)]
pub struct TimeWithoutTimezone {
    pub micros: u64,
}

/// An instant in a timezone: milliseconds from the Unix epoch.
#[derive(Clone, Copy, Debug, PartialEq, Eq, Structural)]
pub struct DateTime {
    pub millis: i64,
    pub timezone: Timezone,
}

/// An instant with no timezone attached.
#[derive(Clone, Copy, Debug, PartialEq, Eq, Structural)]
pub struct DateTimeWithoutTimezone {
    pub millis: i64,
}

/// A decimal number: an unscaled integer and the count of digits after
/// the point. Two decimals are ordered only at equal scale.
#[derive(Clone, Copy, Debug, PartialEq, Eq, Structural)]
pub struct Decimal {
    pub unscaled: i128,
    pub scale: u32,
}

/// A BSON document, carried as its binary encoding.
#[derive(Clone, Debug)]
pub struct Bson {
    pub bytes: Vec<u8>,
}

/// A JSON document, carried as its text.
#[derive(Clone, Debug)]
pub struct Json {
    pub text: String,
}

/// An enum string: the name of the chosen variant.
#[derive(Clone, Debug)]
pub struct Enum {
    pub name: String,
}

/// A URL, carried as its serialised text.
#[derive(Clone, Debug)]
pub struct Url {
    pub text: String,
}

/// An IP address: a version-4 address as its 32-bit value in octet
/// order, or a version-6 address as its 128-bit value. Every version-4
/// address orders before every version-6 address.
#[derive(Clone, Copy, Debug, PartialEq, Eq, Structural)]
pub enum IpAddr {
    V4(u32),
    V6(u128),
}

/// A fetched web page: the address it was served from, its URL, and its
/// raw contents.
#[derive(Clone, Debug)]
pub struct Webpage {
    pub ip: IpAddr,
    pub url: Url,
    pub contents: Vec<u8>,
}

impl Webpage {
    /// A copy of the page that owns its contents outright.
    pub fn to_owned(&self) -> (r: Webpage)
        ensures
            r.ip == self.ip,
            r.url.text@ == self.url.text@,
            r.contents@ == self.contents@,
    {
        Webpage {
            ip: self.ip,
            url: Url { text: self.url.text.clone() },
            contents: self.contents.clone(),
        }
    }
}

/// The error returned when a web page cannot be read from text.
#[derive(Clone, Debug, PartialEq, Eq, Structural)]
pub struct ParseWebpageError;

/// The total order of IP addresses: within a version by numeric value,
/// and all version-4 addresses before all version-6 addresses.
pub open spec fn ip_cmp_spec(a: IpAddr, b: IpAddr) -> Ordering {
    match (a, b) {
        (IpAddr::V4(x), IpAddr::V4(y)) => int_ordering(x as int, y as int),
        (IpAddr::V6(x), IpAddr::V6(y)) => int_ordering(x as int, y as int),
        (IpAddr::V4(_), IpAddr::V6(_)) => Ordering::Less,
        (IpAddr::V6(_), IpAddr::V4(_)) => Ordering::Greater,
    }
}

/// The order of two mathematical integers.
pub open spec fn int_ordering(a: int, b: int) -> Ordering {
    if a < b {
        Ordering::Less
    } else if a == b {
        Ordering::Equal
    } else {
        Ordering::Greater
    }
}

/// The order of two URLs: lexicographic on their serialised text.
pub open spec fn url_cmp_spec(a: Url, b: Url) -> Ordering {
    bytes_cmp_spec(string_bytes(a.text), string_bytes(b.text))
}

/// The order of two web pages: by address, then URL, then contents.
pub open spec fn webpage_cmp_spec(a: Webpage, b: Webpage) -> Ordering {
    if ip_cmp_spec(a.ip, b.ip) != Ordering::Equal {
        ip_cmp_spec(a.ip, b.ip)
    } else if url_cmp_spec(a.url, b.url) != Ordering::Equal {
        url_cmp_spec(a.url, b.url)
    } else {
        bytes_cmp_spec(a.contents@, b.contents@)
    }
}

/// A total order that the pipeline layers use where the value model only
/// has a partial one.
pub trait AmadeusOrd {
    /// The order this type answers with.
    spec fn amadeus_cmp_spec(&self, other: &Self) -> Ordering;

    /// Compare two values in the type's total order.
    fn amadeus_cmp(&self, other: &Self) -> (r: Ordering)
        ensures
            r == self.amadeus_cmp_spec(other),
    ;
}

impl AmadeusOrd for IpAddr {
    open spec fn amadeus_cmp_spec(&self, other: &Self) -> Ordering {
        ip_cmp_spec(*self, *other)
    }

    fn amadeus_cmp(&self, other: &Self) -> (r: Ordering) {
        ip_cmp(self, other)
    }
}

impl AmadeusOrd for Url {
    open spec fn amadeus_cmp_spec(&self, other: &Self) -> Ordering {
        url_cmp_spec(*self, *other)
    }

    fn amadeus_cmp(&self, other: &Self) -> (r: Ordering) {
        str_cmp(self.text.as_str(), other.text.as_str())
    }
}

impl AmadeusOrd for Webpage {
    open spec fn amadeus_cmp_spec(&self, other: &Self) -> Ordering {
        webpage_cmp_spec(*self, *other)
    }

    fn amadeus_cmp(&self, other: &Self) -> (r: Ordering) {
        let by_ip = ip_cmp(&self.ip, &other.ip);
        match by_ip {
            Ordering::Equal => {
                let by_url = str_cmp(self.url.text.as_str(), other.url.text.as_str());
                match by_url {
                    Ordering::Equal => bytes_cmp(self.contents.as_slice(), other.contents.as_slice()),
                    _ => by_url,
                }
            },
            _ => by_ip,
        }
    }
}

/// Compare two IP addresses in their total order.
pub fn ip_cmp(a: &IpAddr, b: &IpAddr) -> (r: Ordering)
    ensures
        r == ip_cmp_spec(*a, *b),
{
    match (a, b) {
        (IpAddr::V4(x), IpAddr::V4(y)) => if x < y {
            Ordering::Less
        } else if x == y {
            Ordering::Equal
        } else {
            Ordering::Greater
        },
        (IpAddr::V6(x), IpAddr::V6(y)) => if x < y {
            Ordering::Less
        } else if x == y {
            Ordering::Equal
        } else {
            Ordering::Greater
        },
        (IpAddr::V4(_), IpAddr::V6(_)) => Ordering::Less,
        (IpAddr::V6(_), IpAddr::V4(_)) => Ordering::Greater,
    }
}

} // verus!
