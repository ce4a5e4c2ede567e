//! Reading Robocol traffic out of packet captures: the two capture file
//! formats, the link, IP and UDP layers down to the datagrams, and what the
//! traffic shows (one line per packet, and an end-of-run report).

pub mod net;
pub mod pcap;
pub mod report;
