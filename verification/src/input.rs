//! Scan configuration: the options structure, the configuration-file
//! overlay, and the rules that merge the two.

use vstd::prelude::*;
use crate::textnum::chars_of;
use crate::textnum::is_u16_str;
use crate::textnum::parse_u16_str;
use crate::textnum::split_on;
use crate::textnum::split_chars;
use crate::textnum::u16_str_val;

verus! {

/// The first scannable port.
pub const LOWEST_PORT_NUMBER: u16 = 1;

/// The last scannable port.
pub const TOP_PORT_NUMBER: u16 = 65535;

/// The default concurrency bound when the descriptor limit is low but
/// not tiny.
pub const AVERAGE_BATCH_SIZE: usize = 3000;

/// A typical soft descriptor limit.
pub const DEFAULT_FILE_DESCRIPTORS_LIMIT: usize = 8000;

/// Order in which a port scan runs.
///   - `Serial` runs from start to end, for example 1 to 1_000.
///   - `Random` randomizes the order of the port scan.
#[derive(Debug, Clone, Copy, PartialEq, Eq, Structural)]
pub enum ScanOrder {
    Serial,
    Random,
}

/// Which scripts run after the scan.
///   - `NoScripts` runs nothing and only shows the scan results.
///   - `Default` runs the built-in script.
///   - `Custom` reads a script configuration file and a script folder.
#[derive(Debug, Clone, Copy, PartialEq, Eq, Structural)]
pub enum ScriptsRequired {
    NoScripts,
    Default,
    Custom,
}

/// An inclusive range of ports to scan.
#[derive(Debug, Clone, Copy, PartialEq, Eq, Structural)]
pub struct PortRange {
    pub start: u16,
    pub end: u16,
}

/// Scan options, as assembled from the command line and the
/// configuration file.
#[derive(Debug, Clone)]
pub struct Opts {
    pub addresses: Vec<String>,
    pub ports: Option<Vec<u16>>,
    pub range: Option<PortRange>,
    pub no_config: bool,
    pub no_banner: bool,
    pub config_path: Option<String>,
    pub greppable: bool,
    pub accessible: bool,
    pub resolver: Option<String>,
    pub batch_size: usize,
    pub timeout: u32,
    pub tries: u8,
    pub ulimit: Option<usize>,
    pub scan_order: ScanOrder,
    pub scripts: ScriptsRequired,
    pub top: bool,
    pub command: Vec<String>,
    pub exclude_ports: Option<Vec<u16>>,
    pub exclude_addresses: Option<Vec<String>>,
    pub udp: bool,
}

impl Default for Opts {
    /// The neutral option set: no targets, quiet greppable output, serial
    /// order, configuration file ignored.
    fn default() -> (r: Self)
        ensures
            r.addresses@ =~= Seq::<String>::empty(),
            r.ports is None,
            r.range is None,
            r.greppable,
            r.batch_size == 0,
            r.timeout == 0,
            r.tries == 0,
            r.ulimit is None,
            r.command@ =~= Seq::<String>::empty(),
            !r.accessible,
            r.resolver is None,
            r.scan_order == ScanOrder::Serial,
            r.no_config,
            !r.no_banner,
            !r.top,
            r.scripts == ScriptsRequired::Default,
            r.config_path is None,
            r.exclude_ports is None,
            r.exclude_addresses is None,
            !r.udp,
    {
        Self {
            addresses: Vec::new(),
            ports: None,
            range: None,
            greppable: true,
            batch_size: 0,
            timeout: 0,
            tries: 0,
            ulimit: None,
            command: Vec::new(),
            accessible: false,
            resolver: None,
            scan_order: ScanOrder::Serial,
            no_config: true,
            no_banner: false,
            top: false,
            scripts: ScriptsRequired::Default,
            config_path: None,
            exclude_ports: None,
            exclude_addresses: None,
            udp: false,
        }
    }
}

/// Options read from the configuration file; every field is optional and
/// is merged onto the command-line options.
#[derive(Debug, Clone)]
pub struct Config {
    pub addresses: Option<Vec<String>>,
    pub ports: Option<Vec<u16>>,
    pub range: Option<PortRange>,
    pub greppable: Option<bool>,
    pub accessible: Option<bool>,
    pub batch_size: Option<usize>,
    pub timeout: Option<u32>,
    pub tries: Option<u8>,
    pub ulimit: Option<usize>,
    pub resolver: Option<String>,
    pub scan_order: Option<ScanOrder>,
    pub command: Option<Vec<String>>,
    pub scripts: Option<ScriptsRequired>,
    pub exclude_ports: Option<Vec<u16>>,
    pub exclude_addresses: Option<Vec<String>>,
    pub udp: Option<bool>,
    pub no_banner: Option<bool>,
}

/// What `merge_required` changes: each always-present field takes the
/// configured value when there is one, and keeps the old value otherwise.
pub open spec fn required_fields_merged(pre: Opts, config: &Config, post: Opts) -> bool {
    &&& post.addresses.deep_view() == (if config.addresses is Some {
        config.addresses->Some_0.deep_view()
    } else {
        pre.addresses.deep_view()
    })
    &&& post.greppable == (if config.greppable is Some {
        config.greppable->Some_0
    } else {
        pre.greppable
    })
    &&& post.accessible == (if config.accessible is Some {
        config.accessible->Some_0
    } else {
        pre.accessible
    })
    &&& post.batch_size == (if config.batch_size is Some {
        config.batch_size->Some_0
    } else {
        pre.batch_size
    })
    &&& post.timeout == (if config.timeout is Some {
        config.timeout->Some_0
    } else {
        pre.timeout
    })
    &&& post.tries == (if config.tries is Some {
        config.tries->Some_0
    } else {
        pre.tries
    })
    &&& post.scan_order == (if config.scan_order is Some {
        config.scan_order->Some_0
    } else {
        pre.scan_order
    })
    &&& post.scripts == (if config.scripts is Some {
        config.scripts->Some_0
    } else {
        pre.scripts
    })
    &&& post.command.deep_view() == (if config.command is Some {
        config.command->Some_0.deep_view()
    } else {
        pre.command.deep_view()
    })
    &&& post.udp == (if config.udp is Some {
        config.udp->Some_0
    } else {
        pre.udp
    })
    &&& post.no_banner == (if config.no_banner is Some {
        config.no_banner->Some_0
    } else {
        pre.no_banner
    })
}

/// What `merge_optional` changes: the port list is configured only on a
/// `top` run; the other optional fields take a configured `Some`.
pub open spec fn optional_fields_merged(pre: Opts, config: &Config, post: Opts) -> bool {
    &&& post.ports.deep_view() == (if pre.top && config.ports is Some {
        config.ports.deep_view()
    } else {
        pre.ports.deep_view()
    })
    &&& post.range == (if config.range is Some {
        config.range
    } else {
        pre.range
    })
    &&& post.resolver.deep_view() == (if config.resolver is Some {
        config.resolver.deep_view()
    } else {
        pre.resolver.deep_view()
    })
    &&& post.ulimit == (if config.ulimit is Some {
        config.ulimit
    } else {
        pre.ulimit
    })
    &&& post.exclude_ports.deep_view() == (if config.exclude_ports is Some {
        config.exclude_ports.deep_view()
    } else {
        pre.exclude_ports.deep_view()
    })
    &&& post.exclude_addresses.deep_view() == (if config.exclude_addresses is Some {
        config.exclude_addresses.deep_view()
    } else {
        pre.exclude_addresses.deep_view()
    })
}

/// The fields that no merge step touches.
pub open spec fn merge_frame(pre: Opts, post: Opts) -> bool {
    &&& post.no_config == pre.no_config
    &&& post.config_path.deep_view() == pre.config_path.deep_view()
    &&& post.top == pre.top
}

/// The fields `merge_required` leaves alone.
pub open spec fn required_merge_frame(pre: Opts, post: Opts) -> bool {
    &&& merge_frame(pre, post)
    &&& post.ports.deep_view() == pre.ports.deep_view()
    &&& post.range == pre.range
    &&& post.resolver.deep_view() == pre.resolver.deep_view()
    &&& post.ulimit == pre.ulimit
    &&& post.exclude_ports.deep_view() == pre.exclude_ports.deep_view()
    &&& post.exclude_addresses.deep_view() == pre.exclude_addresses.deep_view()
}

/// The fields `merge_optional` leaves alone.
pub open spec fn optional_merge_frame(pre: Opts, post: Opts) -> bool {
    &&& merge_frame(pre, post)
    &&& post.addresses.deep_view() == pre.addresses.deep_view()
    &&& post.greppable == pre.greppable
    &&& post.accessible == pre.accessible
    &&& post.batch_size == pre.batch_size
    &&& post.timeout == pre.timeout
    &&& post.tries == pre.tries
    &&& post.scan_order == pre.scan_order
    &&& post.scripts == pre.scripts
    &&& post.command.deep_view() == pre.command.deep_view()
    &&& post.udp == pre.udp
    &&& post.no_banner == pre.no_banner
}

impl Opts {
    /// Merge the configuration file into these options, unless the user
    /// asked to ignore the configuration file.
    pub fn merge(&mut self, config: &Config)
        ensures
            old(self).no_config ==> *final(self) == *old(self),
            !old(self).no_config ==> required_fields_merged(*old(self), config, *final(self)),
            !old(self).no_config ==> optional_fields_merged(*old(self), config, *final(self)),
            merge_frame(*old(self), *final(self)),
    {
        if !self.no_config {
            self.merge_required(config);
            self.merge_optional(config);
        }
    }

    /// Overlay the fields that always have a value: a `Some` in the
    /// configuration file replaces the command-line value.
    pub fn merge_required(&mut self, config: &Config)
        ensures
            required_fields_merged(*old(self), config, *final(self)),
            required_merge_frame(*old(self), *final(self)),
    {
        let addresses: Vec<String> = match &config.addresses {
            Some(e) => e.clone(),
            None => self.addresses.clone(),
        };
        proof {
            if config.addresses is Some {
                assert(addresses.deep_view() =~~= config.addresses->Some_0.deep_view());
            } else {
                assert(addresses.deep_view() =~~= old(self).addresses.deep_view());
            }
        }
        let command: Vec<String> = match &config.command {
            Some(e) => e.clone(),
            None => self.command.clone(),
        };
        proof {
            if config.command is Some {
                assert(command.deep_view() =~~= config.command->Some_0.deep_view());
            } else {
                assert(command.deep_view() =~~= old(self).command.deep_view());
            }
        }
        let greppable: bool = match &config.greppable {
            Some(e) => *e,
            None => self.greppable,
        };
        let accessible: bool = match &config.accessible {
            Some(e) => *e,
            None => self.accessible,
        };
        let batch_size: usize = match &config.batch_size {
            Some(e) => *e,
            None => self.batch_size,
        };
        let timeout: u32 = match &config.timeout {
            Some(e) => *e,
            None => self.timeout,
        };
        let tries: u8 = match &config.tries {
            Some(e) => *e,
            None => self.tries,
        };
        let scan_order: ScanOrder = match &config.scan_order {
            Some(e) => *e,
            None => self.scan_order,
        };
        let scripts: ScriptsRequired = match &config.scripts {
            Some(e) => *e,
            None => self.scripts,
        };
        let udp: bool = match &config.udp {
            Some(e) => *e,
            None => self.udp,
        };
        let no_banner: bool = match &config.no_banner {
            Some(e) => *e,
            None => self.no_banner,
        };
        let ports: Option<Vec<u16>> = self.ports.clone();
        let resolver: Option<String> = self.resolver.clone();
        let exclude_ports: Option<Vec<u16>> = self.exclude_ports.clone();
        let exclude_addresses: Option<Vec<String>> = self.exclude_addresses.clone();
        let config_path: Option<String> = self.config_path.clone();
        proof {
            assert(ports.deep_view() =~~= old(self).ports.deep_view());
            assert(resolver.deep_view() =~~= old(self).resolver.deep_view());
            assert(exclude_ports.deep_view() =~~= old(self).exclude_ports.deep_view());
            assert(exclude_addresses.deep_view() =~~= old(self).exclude_addresses.deep_view());
            assert(config_path.deep_view() =~~= old(self).config_path.deep_view());
        }
        *self = Opts {
            addresses,
            ports,
            range: self.range,
            no_config: self.no_config,
            no_banner,
            config_path,
            greppable,
            accessible,
            resolver,
            batch_size,
            timeout,
            tries,
            ulimit: self.ulimit,
            scan_order,
            scripts,
            top: self.top,
            command,
            exclude_ports,
            exclude_addresses,
            udp,
        };
    }

    /// Fall back to the whole port range when neither a port list nor a
    /// range was given; any other option set is left as it is.
    pub fn apply_default_port_range(&mut self)
        ensures
            old(self).ports is None && old(self).range is None ==> *final(self) == (Opts {
                range: Some(PortRange { start: LOWEST_PORT_NUMBER, end: TOP_PORT_NUMBER }),
                ..*old(self)
            }),
            !(old(self).ports is None && old(self).range is None) ==> *final(self) == *old(self),
    {
        if self.ports.is_none() && self.range.is_none() {
            self.range = Some(PortRange { start: LOWEST_PORT_NUMBER, end: TOP_PORT_NUMBER });
        }
    }

    /// Overlay the fields that may stay absent. The configured port list is
    /// taken only when the user asked for the top ports.
    pub fn merge_optional(&mut self, config: &Config)
        ensures
            optional_fields_merged(*old(self), config, *final(self)),
            optional_merge_frame(*old(self), *final(self)),
    {
        if self.top && config.ports.is_some() {
            self.ports = config.ports.clone();
            proof {
                assert(self.ports.deep_view() =~~= config.ports.deep_view());
            }
        }
        if config.range.is_some() {
            self.range = config.range;
        }
        if config.resolver.is_some() {
            self.resolver = config.resolver.clone();
            proof {
                assert(self.resolver.deep_view() =~~= config.resolver.deep_view());
            }
        }
        if config.ulimit.is_some() {
            self.ulimit = config.ulimit;
        }
        if config.exclude_ports.is_some() {
            self.exclude_ports = config.exclude_ports.clone();
            proof {
                assert(self.exclude_ports.deep_view() =~~= config.exclude_ports.deep_view());
            }
        }
        if config.exclude_addresses.is_some() {
            self.exclude_addresses = config.exclude_addresses.clone();
            proof {
                assert(self.exclude_addresses.deep_view() =~~= config.exclude_addresses.deep_view());
            }
        }
    }
}

/// What a range argument denotes: two port numbers joined by one dash.
pub open spec fn spec_parse_range(s: Seq<char>) -> Option<PortRange> {
    let parts = split_on(s, '-');
    if parts.len() == 2 && is_u16_str(parts[0]) && is_u16_str(parts[1]) {
        Some(
            PortRange {
                start: u16_str_val(parts[0]) as u16,
                end: u16_str_val(parts[1]) as u16,
            },
        )
    } else {
        None
    }
}

/// Read a `start-end` range argument; anything else is refused with a
/// message that shows the expected shape.
pub fn parse_range(input: &str) -> (r: Result<PortRange, String>)
    ensures
        spec_parse_range(input@) matches Some(pr) ==> r matches Ok(got) && got == pr,
        spec_parse_range(input@) is None ==> (r matches Err(e) && e@
            == "the range format must be 'start-end'. Example: 1-1000."@),
{
    let cs = chars_of(input);
    let parts = split_chars(&cs, '-');
    if parts.len() == 2 {
        proof {
            assert(parts@[0]@ == split_on(input@, '-')[0]) by {
                assert(parts.deep_view()[0] == parts@[0].deep_view());
            }
            assert(parts@[1]@ == split_on(input@, '-')[1]) by {
                assert(parts.deep_view()[1] == parts@[1].deep_view());
            }
        }
        let start = parse_u16_str(&parts[0]);
        let end = parse_u16_str(&parts[1]);
        match (start, end) {
            (Some(s0), Some(e0)) => {
                return Ok(PortRange { start: s0, end: e0 });
            },
            _ => {},
        }
    }
    Err(String::from_str("the range format must be 'start-end'. Example: 1-1000."))
}

/// The concurrency bound the scan actually uses: the requested batch
/// size, clamped under the soft descriptor limit. A very low limit
/// halves itself to leave room for other descriptors; a limit above the
/// typical default falls back to the safe average; anything between
/// leaves a hundred descriptors free.
pub open spec fn spec_infer_batch_size(requested: nat, ulimit: nat) -> nat {
    if ulimit < requested {
        if ulimit < AVERAGE_BATCH_SIZE as nat {
            ulimit / 2
        } else if ulimit > DEFAULT_FILE_DESCRIPTORS_LIMIT as nat {
            AVERAGE_BATCH_SIZE as nat
        } else {
            (ulimit - 100) as nat
        }
    } else {
        requested
    }
}

/// Clamp the requested batch size under the soft descriptor limit.
pub fn infer_batch_size(opts: &Opts, ulimit: usize) -> (r: usize)
    ensures
        r as nat == spec_infer_batch_size(opts.batch_size as nat, ulimit as nat),
{
    let mut batch_size = opts.batch_size;
    if ulimit < batch_size {
        if ulimit < AVERAGE_BATCH_SIZE {
            batch_size = ulimit / 2;
        } else if ulimit > DEFAULT_FILE_DESCRIPTORS_LIMIT {
            batch_size = AVERAGE_BATCH_SIZE;
        } else {
            batch_size = ulimit - 100;
        }
    }
    batch_size
}

} // verus!
