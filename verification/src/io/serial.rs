//! Serial port driver: the register values that set a port up, and the bytes that
//! go over it. Reading and writing the ports is left to the caller.
use vstd::prelude::*;
use vstd::string::*;
use vstd::utf8::*;

verus! {

/// Baud rate.
#[derive(Debug, Clone, Copy, PartialEq, Eq, Structural)]
pub enum BaudRate {
    Baud2400,
    Baud4800,
    Baud9600,
    Baud19200,
    Baud38400,
    Baud57600,
    Baud115200,
}

impl Default for BaudRate {
    fn default() -> (r: Self)
        ensures
            r == BaudRate::Baud38400,
    {
        BaudRate::Baud38400
    }
}

impl BaudRate {
    /// Bits per second.
    pub open spec fn bits_per_second(self) -> int {
        match self {
            BaudRate::Baud2400 => 2400,
            BaudRate::Baud4800 => 4800,
            BaudRate::Baud9600 => 9600,
            BaudRate::Baud19200 => 19200,
            BaudRate::Baud38400 => 38400,
            BaudRate::Baud57600 => 57600,
            BaudRate::Baud115200 => 115200,
        }
    }

    pub open spec fn spec_divisor(self) -> u16 {
        match self {
            BaudRate::Baud2400 => 0x0030,
            BaudRate::Baud4800 => 0x0018,
            BaudRate::Baud9600 => 0x000C,
            BaudRate::Baud19200 => 0x0006,
            BaudRate::Baud38400 => 0x0003,
            BaudRate::Baud57600 => 0x0002,
            BaudRate::Baud115200 => 0x0001,
        }
    }

    /// The divisor of the port's clock.
    pub fn divisor(self) -> (r: u16)
        ensures
            r == self.spec_divisor(),
    {
        match self {
            BaudRate::Baud2400 => 0x0030,
            BaudRate::Baud4800 => 0x0018,
            BaudRate::Baud9600 => 0x000C,
            BaudRate::Baud19200 => 0x0006,
            BaudRate::Baud38400 => 0x0003,
            BaudRate::Baud57600 => 0x0002,
            BaudRate::Baud115200 => 0x0001,
        }
    }
}

/// The divisor gives the rate from a clock of 115200 ticks a second.
pub proof fn law_divisor_gives_rate(rate: BaudRate)
    ensures
        rate.bits_per_second() * rate.spec_divisor() == 115200,
{
}

/// Parity setting.
#[derive(Debug, Clone, Copy, PartialEq, Eq, Structural)]
pub enum Parity {
    NoParity,
    Odd,
    Even,
    Mark,
    Space,
}

impl Default for Parity {
    fn default() -> (r: Self)
        ensures
            r == Parity::NoParity,
    {
        Parity::NoParity
    }
}

/// Configuration of a serial port.
#[derive(Debug, Clone, Copy, PartialEq, Eq)]
pub struct SerialConfig {
    pub port_base: u16,
    pub baud_rate: BaudRate,
    pub data_bits: u8,
    pub stop_bits: u8,
    pub parity: Parity,
    pub fifo_enabled: bool,
    pub fifo_threshold: u8,
    pub collect_metrics: bool,
    pub log_operations: bool,
}

impl Default for SerialConfig {
    fn default() -> (r: Self)
        ensures
            r == (SerialConfig {
                port_base: 0x3F8,
                baud_rate: BaudRate::Baud38400,
                data_bits: 8,
                stop_bits: 1,
                parity: Parity::NoParity,
                fifo_enabled: true,
                fifo_threshold: 14,
                collect_metrics: true,
                log_operations: false,
            }),
    {
        SerialConfig {
            port_base: 0x3F8,
            baud_rate: BaudRate::Baud38400,
            data_bits: 8,
            stop_bits: 1,
            parity: Parity::NoParity,
            fifo_enabled: true,
            fifo_threshold: 14,
            collect_metrics: true,
            log_operations: false,
        }
    }
}

impl SerialConfig {
    /// The first rule that the configuration breaks, if any.
    pub open spec fn broken_rule(&self) -> Option<Seq<char>> {
        if self.port_base == 0 {
            Some("port_base cannot be 0"@)
        } else if self.data_bits < 5 || self.data_bits > 8 {
            Some("data_bits must be between 5 and 8"@)
        } else if self.stop_bits < 1 || self.stop_bits > 2 {
            Some("stop_bits must be 1 or 2"@)
        } else if self.fifo_threshold > 14 {
            Some("fifo_threshold must be <= 14"@)
        } else {
            None
        }
    }

    pub fn validate(&self) -> (r: Result<(), &'static str>)
        ensures
            match r {
                Ok(_) => self.broken_rule() is None,
                Err(e) => self.broken_rule() == Some(e@),
            },
    {
        if self.port_base == 0 {
            return Err("port_base cannot be 0");
        }
        if self.data_bits < 5 || self.data_bits > 8 {
            return Err("data_bits must be between 5 and 8");
        }
        if self.stop_bits < 1 || self.stop_bits > 2 {
            return Err("stop_bits must be 1 or 2");
        }
        if self.fifo_threshold > 14 {
            return Err("fifo_threshold must be <= 14");
        }
        Ok(())
    }

    pub fn with_metrics(self) -> (r: Self)
        ensures
            r == (SerialConfig { collect_metrics: true, ..self }),
    {
        SerialConfig { collect_metrics: true, ..self }
    }

    pub fn with_baud(self, baud: BaudRate) -> (r: Self)
        ensures
            r == (SerialConfig { baud_rate: baud, ..self }),
    {
        SerialConfig { baud_rate: baud, ..self }
    }

    pub fn with_port(self, base: u16) -> (r: Self)
        ensures
            r == (SerialConfig { port_base: base, ..self }),
    {
        SerialConfig { port_base: base, ..self }
    }
}

#[derive(Debug, PartialEq, Eq)]
pub enum SerialError {
    NotInitialised,
    Config(String),
    Io(String),
}

pub type SerialResult<T> = Result<T, SerialError>;

/// Counters of a serial port.
#[derive(Debug, Clone, Copy, PartialEq, Eq)]
pub struct SerialMetrics {
    pub writes: u64,
    pub bytes_written: u64,
    pub writes_failed: u64,
    pub reads: u64,
    pub bytes_read: u64,
}

impl Default for SerialMetrics {
    fn default() -> (r: Self)
        ensures
            r == (SerialMetrics {
                writes: 0,
                bytes_written: 0,
                writes_failed: 0,
                reads: 0,
                bytes_read: 0,
            }),
    {
        SerialMetrics {
            writes: 0,
            bytes_written: 0,
            writes_failed: 0,
            reads: 0,
            bytes_read: 0,
        }
    }
}

impl SerialMetrics {
    /// Counts a write of so many bytes.
    pub fn inc_write(&mut self, bytes: usize)
        ensures
            *final(self) == (SerialMetrics {
                writes: old(self).writes.wrapping_add(1),
                bytes_written: old(self).bytes_written.wrapping_add(bytes as u64),
                ..*old(self)
            }),
    {
        self.writes = self.writes.wrapping_add(1);
        self.bytes_written = self.bytes_written.wrapping_add(bytes as u64);
    }

    pub fn inc_write_failed(&mut self)
        ensures
            *final(self) == (SerialMetrics {
                writes_failed: old(self).writes_failed.wrapping_add(1),
                ..*old(self)
            }),
    {
        self.writes_failed = self.writes_failed.wrapping_add(1);
    }

    /// Counts a read of so many bytes.
    pub fn inc_read(&mut self, bytes: usize)
        ensures
            *final(self) == (SerialMetrics {
                reads: old(self).reads.wrapping_add(1),
                bytes_read: old(self).bytes_read.wrapping_add(bytes as u64),
                ..*old(self)
            }),
    {
        self.reads = self.reads.wrapping_add(1);
        self.bytes_read = self.bytes_read.wrapping_add(bytes as u64);
    }

    /// A copy of the counters.
    pub fn snapshot(&self) -> (r: SerialMetricsSnapshot)
        ensures
            r == (SerialMetricsSnapshot {
                writes: self.writes,
                bytes_written: self.bytes_written,
                writes_failed: self.writes_failed,
                reads: self.reads,
                bytes_read: self.bytes_read,
            }),
    {
        SerialMetricsSnapshot {
            writes: self.writes,
            bytes_written: self.bytes_written,
            writes_failed: self.writes_failed,
            reads: self.reads,
            bytes_read: self.bytes_read,
        }
    }
}

/// A copy of [`SerialMetrics`] at one moment.
#[derive(Debug, Clone, Copy, PartialEq, Eq)]
pub struct SerialMetricsSnapshot {
    pub writes: u64,
    pub bytes_written: u64,
    pub writes_failed: u64,
    pub reads: u64,
    pub bytes_read: u64,
}

/// A byte to write to an I/O port.
#[derive(Debug, Clone, Copy, PartialEq, Eq, Structural)]
pub struct PortWrite {
    pub port: u16,
    pub value: u8,
}

/// Line status: the transmitter can take a byte.
pub const TRANSMIT_READY: u8 = 0x20;

/// Line status: a byte has arrived.
pub const DATA_READY: u8 = 0x01;

/// The bytes that a string is sent as: a carriage return goes before each line
/// feed.
pub open spec fn expanded(bytes: Seq<u8>) -> Seq<u8>
    decreases bytes.len(),
{
    if bytes.len() == 0 {
        Seq::empty()
    } else if bytes.last() == 10 {
        expanded(bytes.drop_last()).push(13).push(10)
    } else {
        expanded(bytes.drop_last()).push(bytes.last())
    }
}

/// How many line feeds there are.
pub open spec fn line_feeds(bytes: Seq<u8>) -> nat
    decreases bytes.len(),
{
    if bytes.len() == 0 {
        0
    } else {
        line_feeds(bytes.drop_last()) + if bytes.last() == 10 {
            1nat
        } else {
            0nat
        }
    }
}

/// Every line feed that is sent comes after a carriage return, and nothing else is
/// added.
pub proof fn law_line_feeds_follow_returns(bytes: Seq<u8>, i: int)
    ensures
        expanded(bytes).len() == bytes.len() + line_feeds(bytes),
        0 <= i < expanded(bytes).len() && expanded(bytes)[i] == 10 ==> i > 0 && expanded(bytes)[i
            - 1] == 13,
    decreases bytes.len(),
{
    if bytes.len() > 0 {
        law_line_feeds_follow_returns(bytes.drop_last(), i);
    }
}

/// How many bytes in the queue raise an interrupt, by the code of the trigger.
pub open spec fn trigger_bytes(code: int) -> int {
    if code <= 0 {
        1
    } else if code == 1 {
        4
    } else if code == 2 {
        8
    } else {
        14
    }
}

/// The code of the largest trigger that is not above the threshold; a threshold of
/// none gets the largest trigger there is.
pub open spec fn trigger_code(threshold: int) -> int {
    if threshold >= 14 || threshold <= 0 {
        3
    } else if threshold >= 8 {
        2
    } else if threshold >= 4 {
        1
    } else {
        0
    }
}

/// The trigger for a threshold is at most the threshold, and the next larger one is
/// above it; a threshold that is a trigger gets that trigger.
pub proof fn law_trigger_keeps_to_threshold(threshold: int, code: int)
    requires
        threshold >= 1,
        0 <= code <= 3,
    ensures
        0 <= trigger_code(threshold) <= 3,
        trigger_bytes(trigger_code(threshold)) <= threshold,
        trigger_bytes(code) <= threshold ==> trigger_bytes(code) <= trigger_bytes(
            trigger_code(threshold),
        ),
        trigger_code(trigger_bytes(code)) == code,
{
}

impl SerialConfig {
    /// Line control: data bits in the lowest two bits, then a bit for two stop
    /// bits, then three for the parity.
    pub open spec fn line_control(self) -> int {
        (self.data_bits - 5) + (if self.stop_bits == 2 {
            4int
        } else {
            0int
        }) + match self.parity {
            Parity::NoParity => 0x00int,
            Parity::Odd => 0x08int,
            Parity::Even => 0x18int,
            Parity::Mark => 0x28int,
            Parity::Space => 0x38int,
        }
    }

    /// FIFO control: both queues cleared, the lowest bit to enable them, and the code
    /// of the trigger in the highest two.
    pub open spec fn fifo_control(self) -> int {
        (if self.fifo_enabled {
            7int
        } else {
            6int
        }) + 64 * trigger_code(self.fifo_threshold as int)
    }

    /// What is written to the port to set it up, in this order: interrupts off,
    /// divisor latch on, the two bytes of the divisor, line control, FIFO control
    /// and modem control.
    pub open spec fn setup(self) -> Seq<PortWrite> {
        let base = self.port_base;
        let divisor = self.baud_rate.spec_divisor();
        seq![
            PortWrite { port: (base + 1) as u16, value: 0x00 },
            PortWrite { port: (base + 3) as u16, value: 0x80 },
            PortWrite { port: base, value: (divisor % 256) as u8 },
            PortWrite { port: (base + 1) as u16, value: (divisor / 256) as u8 },
            PortWrite { port: (base + 3) as u16, value: self.line_control() as u8 },
            PortWrite { port: (base + 2) as u16, value: self.fifo_control() as u8 },
            PortWrite { port: (base + 4) as u16, value: 0x0B },
        ]
    }
}

/// Driver of a serial port.
#[derive(Debug, Clone, Copy)]
pub struct SerialPort {
    pub config: SerialConfig,
    pub initialised: bool,
}

impl SerialPort {
    /// All registers have a port number, and the number of data bits makes sense.
    pub open spec fn wf(&self) -> bool {
        &&& self.config.port_base + 5 <= u16::MAX
        &&& self.config.broken_rule() is None
    }

    /// A driver for a port that has not been set up yet.
    pub fn new(config: SerialConfig) -> (r: Self)
        requires
            config.port_base + 5 <= u16::MAX,
        ensures
            r.config == config,
            !r.initialised,
            config.broken_rule() is None ==> r.wf(),
    {
        SerialPort { config, initialised: false }
    }

    /// Sets the port up: returns what is to be written to its registers.
    pub fn init(&mut self) -> (r: SerialResult<Vec<PortWrite>>)
        requires
            old(self).wf(),
        ensures
            final(self).initialised,
            final(self).config == old(self).config,
            r matches Ok(writes) && writes@ == old(self).config.setup(),
    {
        let base: u16 = self.config.port_base;
        let mut writes: Vec<PortWrite> = Vec::new();
        writes.push(PortWrite { port: base + 1, value: 0x00 });
        writes.push(PortWrite { port: base + 3, value: 0x80 });
        let divisor: u16 = self.config.baud_rate.divisor();
        writes.push(PortWrite { port: base, value: (divisor % 256) as u8 });
        writes.push(PortWrite { port: base + 1, value: (divisor / 256) as u8 });
        let mut lcr: u8 = self.config.data_bits - 5;
        if self.config.stop_bits == 2 {
            lcr = lcr + 0x04;
        }
        match self.config.parity {
            Parity::NoParity => {},
            Parity::Odd => {
                lcr = lcr + 0x08;
            },
            Parity::Even => {
                lcr = lcr + 0x18;
            },
            Parity::Mark => {
                lcr = lcr + 0x28;
            },
            Parity::Space => {
                lcr = lcr + 0x38;
            },
        }
        writes.push(PortWrite { port: base + 3, value: lcr });
        let queues: u8 = if self.config.fifo_enabled {
            0x07
        } else {
            0x06
        };
        let t: u8 = self.config.fifo_threshold;
        let code: u8 = if t >= 14 || t == 0 {
            3
        } else if t >= 8 {
            2
        } else if t >= 4 {
            1
        } else {
            0
        };
        writes.push(PortWrite { port: base + 2, value: queues + code * 64 });
        writes.push(PortWrite { port: base + 4, value: 0x0B });
        self.initialised = true;
        assert(writes@ =~= self.config.setup());
        Ok(writes)
    }

    /// The number of the line status register.
    pub fn status_port(&self) -> (r: u16)
        requires
            self.config.port_base + 5 <= u16::MAX,
        ensures
            r == self.config.port_base + 5,
    {
        self.config.port_base + 5
    }

    /// Whether the line status says that a byte can be sent.
    pub fn line_ready(&self, status: u8) -> (r: bool)
        ensures
            r == (status & TRANSMIT_READY != 0),
    {
        status & TRANSMIT_READY != 0
    }

    /// Whether the line status says that a byte has arrived.
    pub fn data_ready(&self, status: u8) -> (r: bool)
        ensures
            r == (status & DATA_READY != 0),
    {
        status & DATA_READY != 0
    }

    /// What sending a byte consists of, once the line is ready.
    pub fn write_byte(&self, byte: u8) -> (r: PortWrite)
        ensures
            r == (PortWrite { port: self.config.port_base, value: byte }),
    {
        PortWrite { port: self.config.port_base, value: byte }
    }

    /// The bytes to send for a string.
    pub fn write_str(&self, s: &str) -> (r: Vec<u8>)
        ensures
            r@ == expanded(encode_utf8(s@)),
    {
        let bytes = s.as_bytes();
        let mut out: Vec<u8> = Vec::new();
        let mut i: usize = 0;
        proof {
            assert(bytes@.take(0) =~= Seq::<u8>::empty());
        }
        while i < bytes.len()
            invariant
                i <= bytes@.len(),
                out@ == expanded(bytes@.take(i as int)),
            decreases bytes@.len() - i,
        {
            proof {
                assert(bytes@.take(i + 1).drop_last() =~= bytes@.take(i as int));
                assert(bytes@.take(i + 1).last() == bytes@[i as int]);
            }
            let byte: u8 = bytes[i];
            if byte == 10 {
                out.push(13);
                out.push(10);
            } else {
                out.push(byte);
            }
            i += 1;
        }
        assert(bytes@.take(i as int) =~= bytes@);
        out
    }

    /// The byte that has arrived, if any. `data` is the data register, which is
    /// read only where the status says that a byte has arrived.
    pub fn try_read_byte(&self, status: u8, data: u8) -> (r: Option<u8>)
        ensures
            r == (if status & DATA_READY != 0 {
                Some(data)
            } else {
                None
            }),
    {
        if self.data_ready(status) {
            Some(data)
        } else {
            None
        }
    }

    /// The byte that has arrived, if any; it does not wait for one.
    pub fn read_byte(&self, status: u8, data: u8) -> (r: Option<u8>)
        ensures
            r == (if status & DATA_READY != 0 {
                Some(data)
            } else {
                None
            }),
    {
        self.try_read_byte(status, data)
    }

    pub fn config(&self) -> (r: &SerialConfig)
        ensures
            *r == self.config,
    {
        &self.config
    }

    pub fn is_initialised(&self) -> (r: bool)
        ensures
            r == self.initialised,
    {
        self.initialised
    }
}

/// Manager of a serial port.
#[derive(Debug)]
pub struct SerialManager {
    pub port: SerialPort,
    pub metrics: SerialMetrics,
    pub initialised: bool,
}

impl SerialManager {
    pub fn new(config: SerialConfig) -> (r: Self)
        requires
            config.broken_rule() is None,
            config.port_base + 5 <= u16::MAX,
        ensures
            r.port.wf(),
            r.port.config == config,
            !r.port.initialised,
            !r.initialised,
            r.metrics == (SerialMetrics {
                writes: 0,
                bytes_written: 0,
                writes_failed: 0,
                reads: 0,
                bytes_read: 0,
            }),
    {
        SerialManager {
            port: SerialPort::new(config),
            metrics: SerialMetrics::default(),
            initialised: false,
        }
    }

    pub fn default() -> (r: Self)
        ensures
            r.port.wf(),
            r.port.config == (SerialConfig {
                port_base: 0x3F8,
                baud_rate: BaudRate::Baud38400,
                data_bits: 8,
                stop_bits: 1,
                parity: Parity::NoParity,
                fifo_enabled: true,
                fifo_threshold: 14,
                collect_metrics: true,
                log_operations: false,
            }),
            !r.port.initialised,
            !r.initialised,
            r.metrics == (SerialMetrics {
                writes: 0,
                bytes_written: 0,
                writes_failed: 0,
                reads: 0,
                bytes_read: 0,
            }),
    {
        Self::new(SerialConfig::default())
    }

    pub fn config(&self) -> (r: &SerialConfig)
        ensures
            *r == self.port.config,
    {
        self.port.config()
    }

    pub fn metrics(&self) -> (r: &SerialMetrics)
        ensures
            *r == self.metrics,
    {
        &self.metrics
    }

    /// Sets the port up, once: returns what is to be written to its registers.
    pub fn init(&mut self) -> (r: SerialResult<Vec<PortWrite>>)
        requires
            old(self).port.wf(),
        ensures
            final(self).initialised,
            final(self).metrics == old(self).metrics,
            final(self).port.config == old(self).port.config,
            final(self).port.initialised == (!old(self).initialised || old(self).port.initialised),
            r matches Ok(writes) && writes@ == (if old(self).initialised {
                Seq::empty()
            } else {
                old(self).port.config.setup()
            }),
    {
        if self.initialised {
            return Ok(Vec::new());
        }
        match self.port.init() {
            Ok(writes) => {
                self.initialised = true;
                Ok(writes)
            },
            Err(e) => Err(e),
        }
    }

    /// The bytes to send for a string; none before `init`.
    pub fn write(&mut self, s: &str) -> (r: Vec<u8>)
        ensures
            final(self).port == old(self).port,
            final(self).initialised == old(self).initialised,
            r@ == (if old(self).initialised {
                expanded(encode_utf8(s@))
            } else {
                Seq::empty()
            }),
            final(self).metrics == (if old(self).initialised {
                SerialMetrics {
                    writes: old(self).metrics.writes.wrapping_add(1),
                    bytes_written: old(self).metrics.bytes_written.wrapping_add(r@.len() as u64),
                    ..old(self).metrics
                }
            } else {
                old(self).metrics
            }),
    {
        if !self.initialised {
            return Vec::new();
        }
        let bytes = self.port.write_str(s);
        self.metrics.inc_write(bytes.len());
        bytes
    }

    /// What sending a byte consists of; nothing before `init`.
    pub fn write_byte(&mut self, byte: u8) -> (r: Option<PortWrite>)
        ensures
            final(self).port == old(self).port,
            final(self).initialised == old(self).initialised,
            r == (if old(self).initialised {
                Some(PortWrite { port: old(self).port.config.port_base, value: byte })
            } else {
                None
            }),
            final(self).metrics == (if old(self).initialised {
                SerialMetrics {
                    writes: old(self).metrics.writes.wrapping_add(1),
                    bytes_written: old(self).metrics.bytes_written.wrapping_add(1),
                    ..old(self).metrics
                }
            } else {
                old(self).metrics
            }),
    {
        if !self.initialised {
            return None;
        }
        self.metrics.inc_write(1);
        Some(self.port.write_byte(byte))
    }

    /// The byte that has arrived, if any; none before `init`.
    pub fn try_read_byte(&mut self, status: u8, data: u8) -> (r: Option<u8>)
        ensures
            final(self).port == old(self).port,
            final(self).initialised == old(self).initialised,
            r == (if old(self).initialised && status & DATA_READY != 0 {
                Some(data)
            } else {
                None
            }),
            final(self).metrics == (if r is Some {
                SerialMetrics {
                    reads: old(self).metrics.reads.wrapping_add(1),
                    bytes_read: old(self).metrics.bytes_read.wrapping_add(1),
                    ..old(self).metrics
                }
            } else {
                old(self).metrics
            }),
    {
        if !self.initialised {
            return None;
        }
        let b: Option<u8> = self.port.try_read_byte(status, data);
        if b.is_some() {
            self.metrics.inc_read(1);
        }
        b
    }

    pub fn is_initialised(&self) -> (r: bool)
        ensures
            r == self.initialised,
    {
        self.initialised
    }

    pub fn metrics_snapshot(&self) -> (r: SerialMetricsSnapshot)
        ensures
            r.writes == self.metrics.writes,
            r.bytes_written == self.metrics.bytes_written,
            r.writes_failed == self.metrics.writes_failed,
            r.reads == self.metrics.reads,
            r.bytes_read == self.metrics.bytes_read,
    {
        self.metrics.snapshot()
    }

    /// Sets all counters to 0.
    pub fn reset_metrics(&mut self)
        ensures
            *final(self) == (SerialManager {
                metrics: SerialMetrics {
                    writes: 0,
                    bytes_written: 0,
                    writes_failed: 0,
                    reads: 0,
                    bytes_read: 0,
                },
                ..*old(self)
            }),
    {
        self.metrics = SerialMetrics::default();
    }
}

// ---------------------------------------------------------------------------
// The kernel-wide port, which its owner passes in
// ---------------------------------------------------------------------------

/// Sets the default port up, the first time it is called.
pub fn init(done: &mut bool) -> (r: Vec<PortWrite>)
    ensures
        *final(done),
        *old(done) ==> r@.len() == 0,
        !*old(done) ==> exists|c: SerialConfig|
            c.port_base == 0x3F8 && c.baud_rate == BaudRate::Baud38400 && c.data_bits == 8
                && c.stop_bits == 1 && c.parity == Parity::NoParity && c.fifo_enabled
                && c.fifo_threshold == 14 && r@ == #[trigger] c.setup(),
{
    if *done {
        return Vec::new();
    }
    *done = true;
    let mut m = SerialManager::new(SerialConfig::default());
    let ghost c = m.port.config;
    assert(c.setup() == c.setup());
    match m.init() {
        Ok(writes) => writes,
        Err(_) => Vec::new(),
    }
}

/// The bytes to send for a string.
pub fn write_str(port: &SerialPort, s: &str) -> (r: Vec<u8>)
    ensures
        r@ == expanded(encode_utf8(s@)),
{
    port.write_str(s)
}

/// What sending a byte consists of, once the line is ready.
pub fn write_byte(port: &SerialPort, byte: u8) -> (r: PortWrite)
    ensures
        r == (PortWrite { port: port.config.port_base, value: byte }),
{
    port.write_byte(byte)
}

/// The byte that has arrived, if any.
pub fn try_read_byte(port: &SerialPort, status: u8, data: u8) -> (r: Option<u8>)
    ensures
        r == (if status & DATA_READY != 0 {
            Some(data)
        } else {
            None
        }),
{
    port.try_read_byte(status, data)
}

/// What is written to set up the port: interrupts are off, then the divisor of the rate
/// goes out with its low byte first while the line is open for it, then the line is closed
/// with its data bits, stop bits and parity, the queues are emptied with their trigger, and
/// the modem lines are raised.
pub proof fn law_port_is_set_up(p: &mut SerialPort, r: SerialResult<Vec<PortWrite>>)
    requires
        old(p).wf(),
        call_ensures(SerialPort::init, (p,), r),
    ensures
        r is Ok,
        ({
            let w = r->Ok_0@;
            let c = old(p).config;
            let base = c.port_base as int;
            let divisor = w[2].value + 256 * w[3].value;
            let line = w[4].value as int;
            let fifo = w[5].value as int;
            &&& w.len() == 7
            &&& w[0].port == base + 1 && w[0].value == 0
            &&& w[1].port == base + 3 && w[1].value == 128
            &&& w[2].port == base && w[3].port == base + 1
            &&& c.baud_rate is Baud2400 ==> divisor * 2400 == 115200
            &&& c.baud_rate is Baud4800 ==> divisor * 4800 == 115200
            &&& c.baud_rate is Baud9600 ==> divisor * 9600 == 115200
            &&& c.baud_rate is Baud19200 ==> divisor * 19200 == 115200
            &&& c.baud_rate is Baud38400 ==> divisor * 38400 == 115200
            &&& c.baud_rate is Baud57600 ==> divisor * 57600 == 115200
            &&& c.baud_rate is Baud115200 ==> divisor * 115200 == 115200
            &&& w[4].port == base + 3
            &&& line < 128
            &&& line % 4 + 5 == c.data_bits
            &&& (line / 4) % 2 + 1 == c.stop_bits
            &&& (line / 8) % 2 == 0 <==> c.parity is NoParity
            &&& c.parity is NoParity ==> line / 8 == 0
            &&& c.parity is Odd ==> line / 8 == 1
            &&& c.parity is Even ==> line / 8 == 3
            &&& c.parity is Mark ==> line / 8 == 5
            &&& c.parity is Space ==> line / 8 == 7
            &&& w[5].port == base + 2
            &&& fifo % 2 == 1 <==> c.fifo_enabled
            &&& (fifo / 2) % 32 == 3
            &&& c.fifo_threshold >= 14 ==> fifo / 64 == 3
            &&& 8 <= c.fifo_threshold < 14 ==> fifo / 64 == 2
            &&& 4 <= c.fifo_threshold < 8 ==> fifo / 64 == 1
            &&& 1 <= c.fifo_threshold < 4 ==> fifo / 64 == 0
            &&& w[6].port == base + 4 && w[6].value == 0x0B
        }),
        final(p).initialised,
        final(p).config == old(p).config,
{
}

proof fn lemma_expanded_parts(a: Seq<u8>, b: Seq<u8>)
    ensures
        expanded(a + b) == expanded(a) + expanded(b),
    decreases b.len(),
{
    if b.len() == 0 {
        assert(a + b =~= a);
        assert(expanded(a) + expanded(b) =~= expanded(a));
    } else {
        lemma_expanded_parts(a, b.drop_last());
        assert((a + b).drop_last() =~= a + b.drop_last());
        assert((a + b).last() == b.last());
        assert(expanded(a + b) =~= expanded(a) + expanded(b));
    }
}

/// What is sent of a text is what is sent of its parts, one behind the other. Bytes without
/// a line feed are sent as they are, and a line feed alone as a carriage return and a line
/// feed.
pub proof fn law_text_is_sent_in_parts(a: Seq<u8>, b: Seq<u8>)
    ensures
        expanded(a + b) == expanded(a) + expanded(b),
        !a.contains(10) ==> expanded(a) == a,
        expanded(seq![10u8]) == seq![13u8, 10],
    decreases a.len(),
{
    lemma_expanded_parts(a, b);
    let lf = seq![10u8];
    assert(lf.drop_last() =~= Seq::<u8>::empty());
    assert(expanded(lf.drop_last()) =~= Seq::<u8>::empty());
    assert(expanded(lf) =~= seq![13u8, 10]);
    if a.len() > 0 && !a.contains(10) {
        assert(a.contains(a.last()));
        assert forall|i: int| 0 <= i < a.len() - 1 implies a.drop_last()[i] != 10 by {
            assert(a.contains(a[i]));
        }
        law_text_is_sent_in_parts(a.drop_last(), b);
        assert(expanded(a) =~= a);
    } else if a.len() == 0 {
        assert(expanded(a) =~= a);
    }
}

/// A port that is set up sends what it is given, byte by byte as a port would, and counts
/// one write with as many bytes as are sent; one that is not sends and counts nothing.
pub proof fn law_sent_bytes_are_counted(
    m: &mut SerialManager,
    s: &str,
    r: Vec<u8>,
    direct: Vec<u8>,
)
    requires
        call_ensures(SerialManager::write, (m, s), r),
        call_ensures(SerialPort::write_str, (&old(m).port, s), direct),
    ensures
        direct@ == expanded(encode_utf8(s@)),
        old(m).initialised ==> r@ == direct@,
        !old(m).initialised ==> r@.len() == 0 && final(m).metrics == old(m).metrics,
        old(m).initialised && old(m).metrics.writes < u64::MAX ==> final(m).metrics.writes == old(
            m).metrics.writes + 1,
        old(m).initialised && old(m).metrics.bytes_written + r@.len() <= u64::MAX ==> final(
            m).metrics.bytes_written == old(m).metrics.bytes_written + r@.len(),
        final(m).metrics.reads == old(m).metrics.reads,
{
}

/// A byte goes to the port's first address as it is; one is read exactly where the lowest
/// bit of the status says that there is one, and it is the one that lies there. The sixth
/// bit says that the port can send.
pub proof fn law_status_says_what_can_be_done(
    p: &SerialPort,
    byte: u8,
    w: PortWrite,
    status: u8,
    data: u8,
    read: Option<u8>,
    can_read: bool,
    can_send: bool,
    at: u16,
)
    requires
        call_ensures(SerialPort::write_byte, (p, byte), w),
        call_ensures(SerialPort::read_byte, (p, status, data), read),
        call_ensures(SerialPort::data_ready, (p, status), can_read),
        call_ensures(SerialPort::line_ready, (p, status), can_send),
        call_ensures(SerialPort::status_port, (p,), at),
    ensures
        w.port == p.config.port_base && w.value == byte,
        can_read <==> status as int % 2 == 1,
        can_send <==> (status as int / 32) % 2 == 1,
        read == (if can_read {
            Some(data)
        } else {
            None
        }),
        at == p.config.port_base + 5,
{
    assert((status & 0x01 != 0) == (status % 2 == 1)) by (bit_vector);
    assert((status & 0x20 != 0) == ((status / 32) % 2 == 1)) by (bit_vector);
}

/// What a manager writes or reads byte by byte is counted where its port is set up.
pub proof fn law_single_bytes_are_counted(
    a: &mut SerialManager,
    byte: u8,
    w: Option<PortWrite>,
    b: &mut SerialManager,
    status: u8,
    data: u8,
    read: Option<u8>,
)
    requires
        call_ensures(SerialManager::write_byte, (a, byte), w),
        call_ensures(SerialManager::try_read_byte, (b, status, data), read),
        old(a).metrics.writes < u64::MAX,
        old(a).metrics.bytes_written < u64::MAX,
        old(b).metrics.reads < u64::MAX,
        old(b).metrics.bytes_read < u64::MAX,
    ensures
        w is Some <==> old(a).initialised,
        w matches Some(x) ==> x.value == byte && x.port == old(a).port.config.port_base,
        final(a).metrics.writes - old(a).metrics.writes == (if w is Some {
            1int
        } else {
            0
        }),
        final(a).metrics.bytes_written - old(a).metrics.bytes_written == (if w is Some {
            1int
        } else {
            0
        }),
        read is Some <==> old(b).initialised && status as int % 2 == 1,
        read matches Some(x) ==> x == data,
        final(b).metrics.reads - old(b).metrics.reads == (if read is Some {
            1int
        } else {
            0
        }),
        final(b).metrics.bytes_read - old(b).metrics.bytes_read == (if read is Some {
            1int
        } else {
            0
        }),
        final(b).metrics.writes == old(b).metrics.writes,
{
    assert((status & 0x01 != 0) == (status % 2 == 1)) by (bit_vector);
}

/// Settings of a port pass exactly where it has an address, five to eight data bits, one or
/// two stop bits, and a threshold that the queue can have.
pub proof fn law_serial_settings_are_possible(c: &SerialConfig, r: Result<(), &'static str>)
    requires
        call_ensures(SerialConfig::validate, (c,), r),
    ensures
        r is Ok <==> c.port_base != 0 && 5 <= c.data_bits <= 8 && 1 <= c.stop_bits <= 2
            && c.fifo_threshold <= 14,
        c.port_base == 0 ==> r is Err && r->Err_0@ == "port_base cannot be 0"@,
{
}

} // verus!
