//! Command-line options and the packet source they select.

use vstd::prelude::*;

verus! {

/// The options of the monitor.
#[derive(Debug, Clone)]
pub struct Opts {
    /// Screen refreshes per second.
    pub refresh_rate: u32,
    /// Size of the message buffer between components.
    pub buffer_size: usize,
    /// The packet dump to inspect.
    pub file: Option<String>,
    /// The network interface to inspect.
    pub interface: Option<String>,
    /// Export traces over OTLP.
    pub otlp: bool,
    /// The OTLP endpoint.
    pub otlp_endpoint: Option<String>,
    /// Run without the text user interface.
    pub no_tui: bool,
    /// Start logging when the program starts.
    pub log_on_start: bool,
    /// Log metrics to a file.
    pub metrics_log: bool,
    /// The metrics log file.
    pub metrics_log_file: String,
    /// Stop once an offline capture is read to its end.
    pub exit_on_eof: bool,
}

/// Where packets are read from.
#[derive(Debug, Clone)]
pub enum PacketSource {
    /// The default network device.
    Default,
    /// A packet dump.
    File { path: String },
    /// A named network interface.
    Interface(String),
}

/// The content of a [`PacketSource`].
pub enum PacketSourceView {
    Default,
    File { path: Seq<char> },
    Interface(Seq<char>),
}

impl View for PacketSource {
    type V = PacketSourceView;

    open spec fn view(&self) -> PacketSourceView {
        match self {
            PacketSource::Default => PacketSourceView::Default,
            PacketSource::File { path } => PacketSourceView::File { path: path@ },
            PacketSource::Interface(i) => PacketSourceView::Interface(i@),
        }
    }
}

/// Why options select no packet source.
#[derive(Debug, Clone, Copy, PartialEq, Eq, Structural)]
pub enum SourceError {
    /// A dump file and an interface were both given.
    FileAndInterface,
}

impl SourceError {
    /// The message shown for this error.
    pub fn message(&self) -> (r: String)
        ensures
            r@ == "--file and --interface cannot be specified simultaneously"@,
    {
        crate::text::to_owned_string("--file and --interface cannot be specified simultaneously")
    }
}

/// The packet source that options select: a dump file, an interface, or
/// the default device; giving both a file and an interface is an error.
pub open spec fn source_spec(file: Option<String>, interface: Option<String>) -> Result<PacketSourceView, SourceError> {
    match (file, interface) {
        (Some(_), Some(_)) => Err(SourceError::FileAndInterface),
        (Some(f), None) => Ok(PacketSourceView::File { path: f@ }),
        (None, Some(i)) => Ok(PacketSourceView::Interface(i@)),
        (None, None) => Ok(PacketSourceView::Default),
    }
}

/// Picks the packet source from the options.
pub fn packet_source_from_opts(opts: &Opts) -> (r: Result<PacketSource, SourceError>)
    ensures
        match r {
            Ok(s) => source_spec(opts.file, opts.interface) == Ok::<PacketSourceView, SourceError>(s@),
            Err(e) => source_spec(opts.file, opts.interface) == Err::<PacketSourceView, SourceError>(e),
        },
{
    match (&opts.file, &opts.interface) {
        (Some(_), Some(_)) => Err(SourceError::FileAndInterface),
        (Some(file), None) => Ok(PacketSource::File { path: file.clone() }),
        (None, Some(interface)) => Ok(PacketSource::Interface(interface.clone())),
        (None, None) => Ok(PacketSource::Default),
    }
}

/// Whether the run stops at the end of an offline capture: when asked to,
/// and always for a dump read without the text interface.
pub fn exits_at_end_of_capture(opts: &Opts) -> (r: bool)
    ensures
        r == (opts.exit_on_eof || (opts.file is Some && opts.no_tui)),
{
    opts.exit_on_eof || (opts.file.is_some() && opts.no_tui)
}

/// Whether the process may capture packets: it runs as root, or its
/// executable carries a set-user-id, set-group-id or sticky bit (which
/// stands in for file capabilities).
pub fn check_network_capture_capability(euid: u32, exe_mode: u32) -> (r: bool)
    ensures
        r == (euid == 0 || exe_mode & 0o7000u32 != 0),
{
    euid == 0 || exe_mode & 0o7000u32 != 0
}

/// The time of a capture timestamp in nanoseconds: seconds and
/// microseconds since the Unix epoch. The seconds in microseconds, and the
/// time in nanoseconds, must fit in `i64`.
pub fn timeval_to_nanos(sec: i64, usec: i64) -> (r: i64)
    requires
        i64::MIN <= sec * 1_000_000 <= i64::MAX,
        i64::MIN <= (sec * 1_000_000 + usec) * 1000 <= i64::MAX,
    ensures
        r == (sec * 1_000_000 + usec) * 1000,
{
    assert(i64::MIN <= sec * 1_000_000 + usec <= i64::MAX) by (nonlinear_arith)
        requires
            i64::MIN <= (sec * 1_000_000 + usec) * 1000 <= i64::MAX,
    ;
    (sec * 1_000_000 + usec) * 1000
}

} // verus!
