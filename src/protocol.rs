//! File-transfer protocol over a GATT write/notify pair.
//!
//! A command is `[cmd_id:1][payload_len:2 LE][payload]` with at most 570
//! payload bytes; a response is `[resp_len:2 LE][payload]` with at most 256.
//! The framer takes one byte at a time and yields each complete command; a
//! length over the cap resets it. Commands become typed requests; the AGNSS
//! staging area lives here; the services behind the other requests (SD card,
//! GPS, key store) are the caller's.
use vstd::prelude::*;

verus! {

pub const CMD_LIST_DIR: u8 = 0x01;

pub const CMD_OPEN_FILE: u8 = 0x02;

pub const CMD_READ_CHUNK: u8 = 0x03;

pub const CMD_CLOSE_FILE: u8 = 0x04;

pub const CMD_DELETE_FILE: u8 = 0x05;

pub const CMD_GET_SYS_INFO: u8 = 0x06;

pub const CMD_START_AGNSS_WRITE: u8 = 0x07;

pub const CMD_WRITE_AGNSS_CHUNK: u8 = 0x08;

pub const CMD_END_AGNSS_WRITE: u8 = 0x09;

pub const CMD_GPS_WAKEUP: u8 = 0x0A;

pub const CMD_GPS_KEEP_ALIVE: u8 = 0x0B;

pub const CMD_WRITE_FINDMY_KEYS: u8 = 0x0C;

pub const CMD_READ_FINDMY_KEYS: u8 = 0x0D;

pub const CMD_GET_FINDMY_STATUS: u8 = 0x0E;

pub const MAX_CMD_PAYLOAD: usize = 570;

pub const MAX_RESPONSE_PAYLOAD: usize = 256;

pub const READ_CHUNK_MAX_DATA: usize = 254;

pub const LIST_DIR_RESPONSE_MAX: usize = 128;

pub const MAX_AGNSS_MESSAGES: usize = 70;

pub const MAX_AGNSS_MESSAGE_SIZE: usize = 568;

pub const FINDMY_KEY_SIZE: usize = 68;

#[derive(Clone, Copy, Debug, PartialEq, Eq, Structural)]
pub enum CommandState {
    WaitCmdId,
    WaitPayloadLenLsb,
    WaitPayloadLenMsb,
    WaitPayload,
}

/// A complete command as framed on the wire.
pub struct Command {
    pub cmd_id: u8,
    pub payload: Vec<u8>,
}

/// What a command asks for.
pub enum Request {
    ListDir { path: Vec<u8> },
    OpenFile { path: Vec<u8> },
    ReadChunk { offset: u32, count: usize },
    CloseFile,
    DeleteFile { path: Vec<u8> },
    GetSysInfo,
    StartAgnssWrite,
    WriteAgnssChunk { data: Option<Vec<u8>> },
    EndAgnssWrite,
    GpsWakeup,
    GpsKeepAlive { minutes: u16 },
    WriteFindMyKeys { keys: Option<Vec<u8>> },
    ReadFindMyKeys,
    GetFindMyStatus,
    Unknown,
}

/// The path of `[path_len:1 | path]`: at most the bytes that follow.
pub open spec fn path_of(p: Seq<u8>) -> Seq<u8> {
    if p.len() == 0 {
        Seq::empty()
    } else {
        let n = if p[0] as int <= p.len() - 1 {
            p[0] as int
        } else {
            p.len() - 1
        };
        p.subrange(1, 1 + n)
    }
}

pub open spec fn le16_at(p: Seq<u8>, i: int) -> int {
    p[i] + 256 * p[i + 1]
}

/// The chunk of a write-AGNSS-chunk payload `[size:2 LE | bytes]`, when the size
/// is non-zero, fits in the payload and in a message.
pub open spec fn agnss_chunk_of(p: Seq<u8>) -> Option<Seq<u8>> {
    if p.len() < 2 {
        None
    } else {
        let n = le16_at(p, 0);
        if n == 0 || n > p.len() - 2 || n > MAX_AGNSS_MESSAGE_SIZE {
            None
        } else {
            Some(p.subrange(2, 2 + n))
        }
    }
}

/// The response frame for a payload: its length (capped) little-endian, then
/// the payload cut to the cap.
pub open spec fn response_frame(p: Seq<u8>) -> Seq<u8> {
    let n = if p.len() > MAX_RESPONSE_PAYLOAD {
        MAX_RESPONSE_PAYLOAD as int
    } else {
        p.len() as int
    };
    seq![(n % 256) as u8, (n / 256) as u8] + p.subrange(0, n)
}

pub open spec fn le32_bytes(v: u32) -> Seq<u8> {
    seq![(v % 256) as u8, ((v / 256) % 256) as u8, ((v / 65536) % 256) as u8, (v / 16777216) as u8]
}

/// The payload of a present directory entry: name cut so that the entry fits
/// in 128 bytes, then the size for a file.
pub open spec fn list_entry_payload(is_dir: bool, name: Seq<u8>, size: u32) -> Seq<u8> {
    let max_name = if is_dir {
        125int
    } else {
        121int
    };
    let n = if name.len() < max_name {
        name.len() as int
    } else {
        max_name
    };
    seq![0x01u8, if is_dir {
        1u8
    } else {
        0u8
    }, n as u8] + name.subrange(0, n) + if is_dir {
        Seq::empty()
    } else {
        le32_bytes(size)
    }
}

fn copy_range(b: &[u8], from: usize, to: usize) -> (r: Vec<u8>)
    requires
        from <= to <= b@.len(),
    ensures
        r@ == b@.subrange(from as int, to as int),
{
    let mut out: Vec<u8> = Vec::new();
    let mut i = from;
    while i < to
        invariant
            from <= i <= to,
            to <= b@.len(),
            out@ == b@.subrange(from as int, i as int),
        decreases to - i,
    {
        out.push(b[i]);
        i = i + 1;
        assert(out@ =~= b@.subrange(from as int, i as int));
    }
    out
}

fn parse_path(p: &[u8]) -> (r: Vec<u8>)
    ensures
        r@ == path_of(p@),
{
    if p.len() == 0 {
        return Vec::new();
    }
    let n = if (p[0] as usize) <= p.len() - 1 {
        p[0] as usize
    } else {
        p.len() - 1
    };
    copy_range(p, 1, 1 + n)
}

/// The request that a command stands for.
pub fn parse_request(cmd: &Command) -> (r: Request)
    ensures
        cmd.cmd_id == CMD_LIST_DIR ==> (r matches Request::ListDir { path } && path@ == path_of(
            cmd.payload@,
        )),
        cmd.cmd_id == CMD_OPEN_FILE ==> (r matches Request::OpenFile { path } && path@ == path_of(
            cmd.payload@,
        )),
        cmd.cmd_id == CMD_DELETE_FILE ==> (r matches Request::DeleteFile { path } && path@
            == path_of(cmd.payload@)),
        cmd.cmd_id == CMD_READ_CHUNK ==> (r matches Request::ReadChunk { offset, count } && (if cmd.payload@.len() < 6 {
            count == 0
        } else {
            &&& offset == le16_at(cmd.payload@, 0) + 65536 * le16_at(cmd.payload@, 2)
            &&& count == (if le16_at(cmd.payload@, 4) > READ_CHUNK_MAX_DATA {
                READ_CHUNK_MAX_DATA as int
            } else {
                le16_at(cmd.payload@, 4)
            })
        })),
        cmd.cmd_id == CMD_CLOSE_FILE ==> r is CloseFile,
        cmd.cmd_id == CMD_GET_SYS_INFO ==> r is GetSysInfo,
        cmd.cmd_id == CMD_START_AGNSS_WRITE ==> r is StartAgnssWrite,
        cmd.cmd_id == CMD_WRITE_AGNSS_CHUNK ==> (r matches Request::WriteAgnssChunk { data } && (
        match agnss_chunk_of(cmd.payload@) {
            Some(c) => (data matches Some(d) && d@ == c),
            None => data is None,
        })),
        cmd.cmd_id == CMD_END_AGNSS_WRITE ==> r is EndAgnssWrite,
        cmd.cmd_id == CMD_GPS_WAKEUP ==> r is GpsWakeup,
        cmd.cmd_id == CMD_GPS_KEEP_ALIVE ==> (r matches Request::GpsKeepAlive { minutes } && minutes
            == (if cmd.payload@.len() >= 2 {
            le16_at(cmd.payload@, 0)
        } else {
            0
        })),
        cmd.cmd_id == CMD_WRITE_FINDMY_KEYS ==> (r matches Request::WriteFindMyKeys { keys } && (
        if cmd.payload@.len() == FINDMY_KEY_SIZE {
            (keys matches Some(k) && k@ == cmd.payload@)
        } else {
            keys is None
        })),
        cmd.cmd_id == CMD_READ_FINDMY_KEYS ==> r is ReadFindMyKeys,
        cmd.cmd_id == CMD_GET_FINDMY_STATUS ==> r is GetFindMyStatus,
        (cmd.cmd_id == 0 || cmd.cmd_id > CMD_GET_FINDMY_STATUS) ==> r is Unknown,
{
    let p = cmd.payload.as_slice();
    let id = cmd.cmd_id;
    if id == CMD_LIST_DIR {
        Request::ListDir { path: parse_path(p) }
    } else if id == CMD_OPEN_FILE {
        Request::OpenFile { path: parse_path(p) }
    } else if id == CMD_DELETE_FILE {
        Request::DeleteFile { path: parse_path(p) }
    } else if id == CMD_READ_CHUNK {
        if p.len() < 6 {
            Request::ReadChunk { offset: 0, count: 0 }
        } else {
            let offset: u32 = (p[0] as u32) + 256 * (p[1] as u32) + 65536 * ((p[2] as u32) + 256
                * (p[3] as u32));
            let requested: usize = (p[4] as usize) + 256 * (p[5] as usize);
            let count = if requested > READ_CHUNK_MAX_DATA {
                READ_CHUNK_MAX_DATA
            } else {
                requested
            };
            Request::ReadChunk { offset, count }
        }
    } else if id == CMD_CLOSE_FILE {
        Request::CloseFile
    } else if id == CMD_GET_SYS_INFO {
        Request::GetSysInfo
    } else if id == CMD_START_AGNSS_WRITE {
        Request::StartAgnssWrite
    } else if id == CMD_WRITE_AGNSS_CHUNK {
        if p.len() < 2 {
            Request::WriteAgnssChunk { data: None }
        } else {
            let n: usize = (p[0] as usize) + 256 * (p[1] as usize);
            if n == 0 || n > p.len() - 2 || n > MAX_AGNSS_MESSAGE_SIZE {
                Request::WriteAgnssChunk { data: None }
            } else {
                Request::WriteAgnssChunk { data: Some(copy_range(p, 2, 2 + n)) }
            }
        }
    } else if id == CMD_END_AGNSS_WRITE {
        Request::EndAgnssWrite
    } else if id == CMD_GPS_WAKEUP {
        Request::GpsWakeup
    } else if id == CMD_GPS_KEEP_ALIVE {
        let minutes: u16 = if p.len() >= 2 {
            (p[0] as u16) + 256 * (p[1] as u16)
        } else {
            0
        };
        Request::GpsKeepAlive { minutes }
    } else if id == CMD_WRITE_FINDMY_KEYS {
        if p.len() == FINDMY_KEY_SIZE {
            Request::WriteFindMyKeys { keys: Some(copy_range(p, 0, p.len())) }
        } else {
            Request::WriteFindMyKeys { keys: None }
        }
    } else if id == CMD_READ_FINDMY_KEYS {
        Request::ReadFindMyKeys
    } else if id == CMD_GET_FINDMY_STATUS {
        Request::GetFindMyStatus
    } else {
        Request::Unknown
    }
}

/// The framer, the last response and the AGNSS staging area of one connection.
pub struct FileTransferProtocol {
    cmd_state: CommandState,
    cmd_id: u8,
    payload_len: u16,
    buffer: Vec<u8>,
    response: Vec<u8>,
    agnss_messages: Vec<Vec<u8>>,
    agnss_write_in_progress: bool,
}

impl FileTransferProtocol {
    pub closed spec fn state(&self) -> CommandState {
        self.cmd_state
    }

    pub closed spec fn command_id(&self) -> u8 {
        self.cmd_id
    }

    pub closed spec fn expected_len(&self) -> nat {
        self.payload_len as nat
    }

    /// Payload bytes received for the command in progress.
    pub closed spec fn received(&self) -> Seq<u8> {
        self.buffer@
    }

    /// The bytes of the last response.
    pub closed spec fn last_response(&self) -> Seq<u8> {
        self.response@
    }

    /// The staged AGNSS messages, in order.
    pub closed spec fn staged(&self) -> Seq<Seq<u8>> {
        self.agnss_messages@.map_values(|m: Vec<u8>| m@)
    }

    pub closed spec fn staging(&self) -> bool {
        self.agnss_write_in_progress
    }

    pub closed spec fn wf(&self) -> bool {
        &&& self.payload_len <= MAX_CMD_PAYLOAD
        &&& self.buffer@.len() < self.payload_len || self.cmd_state != CommandState::WaitPayload
        &&& self.agnss_messages@.len() <= MAX_AGNSS_MESSAGES
    }

    pub fn new() -> (r: Self)
        ensures
            r.wf(),
            r.state() == CommandState::WaitCmdId,
            r.received().len() == 0,
            r.last_response().len() == 0,
            r.staged().len() == 0,
            !r.staging(),
    {
        let r = FileTransferProtocol {
            cmd_state: CommandState::WaitCmdId,
            cmd_id: 0,
            payload_len: 0,
            buffer: Vec::new(),
            response: Vec::new(),
            agnss_messages: Vec::new(),
            agnss_write_in_progress: false,
        };
        assert(r.staged() =~= Seq::<Seq<u8>>::empty());
        r
    }

    /// The first `len` bytes of the last response.
    pub fn response(&self, len: usize) -> (r: &[u8])
        requires
            len <= self.last_response().len(),
        ensures
            r@ == self.last_response().subrange(0, len as int),
    {
        vstd::slice::slice_subrange(self.response.as_slice(), 0, len)
    }

    fn reset_state(&mut self)
        ensures
            final(self).cmd_state == CommandState::WaitCmdId,
            final(self).cmd_id == 0 && final(self).payload_len == 0,
            final(self).buffer@.len() == 0,
            final(self).response@ == old(self).response@,
            final(self).agnss_messages@ == old(self).agnss_messages@,
            final(self).agnss_write_in_progress == old(self).agnss_write_in_progress,
    {
        self.cmd_state = CommandState::WaitCmdId;
        self.cmd_id = 0;
        self.payload_len = 0;
        self.buffer = Vec::new();
    }

    /// Takes one byte; returns the command it completes. A declared length over
    /// the cap drops the command and waits for a new command id.
    pub fn push_byte(&mut self, byte: u8) -> (r: Option<Command>)
        requires
            old(self).wf(),
        ensures
            final(self).wf(),
            final(self).staged() == old(self).staged(),
            final(self).staging() == old(self).staging(),
            final(self).last_response() == old(self).last_response(),
            match old(self).state() {
                CommandState::WaitCmdId => r is None && final(self).state()
                    == CommandState::WaitPayloadLenLsb && final(self).command_id() == byte,
                CommandState::WaitPayloadLenLsb => r is None && final(self).state()
                    == CommandState::WaitPayloadLenMsb && final(self).expected_len() == byte
                    && final(self).command_id() == old(self).command_id(),
                CommandState::WaitPayloadLenMsb => {
                    let len = old(self).expected_len() % 256 + 256 * byte;
                    if len > MAX_CMD_PAYLOAD {
                        r is None && final(self).state() == CommandState::WaitCmdId
                    } else if len == 0 {
                        r matches Some(c) && c.cmd_id == old(self).command_id() && c.payload@.len()
                            == 0 && final(self).state() == CommandState::WaitCmdId
                    } else {
                        r is None && final(self).state() == CommandState::WaitPayload
                            && final(self).expected_len() == len && final(self).received().len()
                            == 0 && final(self).command_id() == old(self).command_id()
                    }
                },
                CommandState::WaitPayload => {
                    let got = old(self).received().push(byte);
                    if got.len() == old(self).expected_len() {
                        r matches Some(c) && c.cmd_id == old(self).command_id() && c.payload@
                            == got && final(self).state() == CommandState::WaitCmdId
                    } else {
                        r is None && final(self).state() == CommandState::WaitPayload
                            && final(self).received() == got && final(self).expected_len()
                            == old(self).expected_len() && final(self).command_id() == old(
                            self,
                        ).command_id()
                    }
                },
            },
    {
        match self.cmd_state {
            CommandState::WaitCmdId => {
                self.cmd_id = byte;
                self.cmd_state = CommandState::WaitPayloadLenLsb;
                None
            },
            CommandState::WaitPayloadLenLsb => {
                self.payload_len = byte as u16;
                self.cmd_state = CommandState::WaitPayloadLenMsb;
                None
            },
            CommandState::WaitPayloadLenMsb => {
                let len: u16 = self.payload_len % 256 + (byte as u16) * 256;
                if len as usize > MAX_CMD_PAYLOAD {
                    self.reset_state();
                    return None;
                }
                if len == 0 {
                    let cmd = Command { cmd_id: self.cmd_id, payload: Vec::new() };
                    self.reset_state();
                    return Some(cmd);
                }
                self.payload_len = len;
                self.buffer = Vec::new();
                self.cmd_state = CommandState::WaitPayload;
                None
            },
            CommandState::WaitPayload => {
                self.buffer.push(byte);
                if self.buffer.len() == self.payload_len as usize {
                    let mut payload: Vec<u8> = Vec::new();
                    core::mem::swap(&mut payload, &mut self.buffer);
                    let cmd = Command { cmd_id: self.cmd_id, payload };
                    self.reset_state();
                    return Some(cmd);
                }
                None
            },
        }
    }

    /// Stores `[len LE | payload]` as the response (payload cut to 256 bytes);
    /// returns the response's length.
    pub fn encode_response(&mut self, payload: &[u8]) -> (r: usize)
        ensures
            final(self).last_response() == response_frame(payload@),
            r == final(self).last_response().len(),
            final(self).state() == old(self).state(),
            final(self).received() == old(self).received(),
            final(self).expected_len() == old(self).expected_len(),
            final(self).command_id() == old(self).command_id(),
            final(self).staged() == old(self).staged(),
            final(self).staging() == old(self).staging(),
            final(self).wf() == old(self).wf(),
    {
        let n = if payload.len() > MAX_RESPONSE_PAYLOAD {
            MAX_RESPONSE_PAYLOAD
        } else {
            payload.len()
        };
        let mut out: Vec<u8> = Vec::new();
        out.push((n % 256) as u8);
        out.push((n / 256) as u8);
        let mut i: usize = 0;
        while i < n
            invariant
                n <= payload@.len(),
                i <= n,
                out@ == seq![(n % 256) as u8, (n / 256) as u8] + payload@.subrange(0, i as int),
            decreases n - i,
        {
            out.push(payload[i]);
            i = i + 1;
            assert(out@ =~= seq![(n % 256) as u8, (n / 256) as u8] + payload@.subrange(
                0,
                i as int,
            ));
        }
        self.response = out;
        self.response.len()
    }

    /// The empty response `[0, 0]`.
    pub fn encode_empty_response(&mut self) -> (r: usize)
        ensures
            final(self).last_response() == seq![0u8, 0u8],
            r == 2,
            final(self).state() == old(self).state(),
            final(self).received() == old(self).received(),
            final(self).expected_len() == old(self).expected_len(),
            final(self).command_id() == old(self).command_id(),
            final(self).staged() == old(self).staged(),
            final(self).staging() == old(self).staging(),
            final(self).wf() == old(self).wf(),
    {
        let mut out: Vec<u8> = Vec::new();
        out.push(0);
        out.push(0);
        assert(out@ =~= seq![0u8, 0u8]);
        self.response = out;
        2
    }

    /// Response to list-dir for a present entry.
    pub fn encode_list_entry(&mut self, is_dir: bool, name: &[u8], size: u32) -> (r: usize)
        ensures
            final(self).last_response() == response_frame(list_entry_payload(is_dir, name@, size)),
            r == final(self).last_response().len(),
            final(self).staged() == old(self).staged(),
            final(self).staging() == old(self).staging(),
            final(self).state() == old(self).state(),
            final(self).wf() == old(self).wf(),
    {
        let max_name: usize = if is_dir {
            125
        } else {
            121
        };
        let n = if name.len() < max_name {
            name.len()
        } else {
            max_name
        };
        let mut p: Vec<u8> = Vec::new();
        p.push(0x01);
        p.push(
            if is_dir {
                1
            } else {
                0
            },
        );
        p.push(n as u8);
        let ghost head = p@;
        let mut i: usize = 0;
        while i < n
            invariant
                n <= name@.len(),
                i <= n,
                p@ == head + name@.subrange(0, i as int),
            decreases n - i,
        {
            p.push(name[i]);
            i = i + 1;
            assert(p@ =~= head + name@.subrange(0, i as int));
        }
        if !is_dir {
            p.push((size % 256) as u8);
            p.push(((size / 256) % 256) as u8);
            p.push(((size / 65536) % 256) as u8);
            p.push((size / 16777216) as u8);
        }
        assert(p@ =~= list_entry_payload(is_dir, name@, size));
        self.encode_response(p.as_slice())
    }

    /// Begins staging a new AGNSS batch.
    pub fn handle_start_agnss_write(&mut self) -> (r: usize)
        requires
            old(self).wf(),
        ensures
            final(self).wf(),
            final(self).staged().len() == 0,
            final(self).staging(),
            final(self).last_response() == seq![0u8, 0u8],
            r == 2,
            final(self).state() == old(self).state(),
    {
        self.agnss_messages = Vec::new();
        self.agnss_write_in_progress = true;
        assert(self.staged() =~= Seq::<Seq<u8>>::empty());
        self.encode_empty_response()
    }

    /// Stages one message, when staging is on and the chunk is valid and fits.
    pub fn handle_write_agnss_chunk(&mut self, chunk: Option<Vec<u8>>) -> (r: usize)
        requires
            old(self).wf(),
            chunk matches Some(c) ==> c@.len() <= MAX_AGNSS_MESSAGE_SIZE,
        ensures
            final(self).wf(),
            final(self).staging() == old(self).staging(),
            final(self).staged() == (match chunk {
                Some(c) => if old(self).staging() && old(self).staged().len() < MAX_AGNSS_MESSAGES {
                    old(self).staged().push(c@)
                } else {
                    old(self).staged()
                },
                None => old(self).staged(),
            }),
            final(self).last_response() == seq![0u8, 0u8],
            r == 2,
            final(self).state() == old(self).state(),
    {
        if self.agnss_write_in_progress && self.agnss_messages.len() < MAX_AGNSS_MESSAGES {
            if let Some(c) = chunk {
                let ghost cv = c@;
                self.agnss_messages.push(c);
                assert(self.staged() =~= old(self).staged().push(cv));
            }
        }
        self.encode_empty_response()
    }

    /// Ends staging; returns the batch to hand to the AGNSS queue (`None` when
    /// no batch was being staged).
    pub fn handle_end_agnss_write(&mut self) -> (r: Option<Vec<Vec<u8>>>)
        requires
            old(self).wf(),
        ensures
            final(self).wf(),
            !final(self).staging(),
            final(self).staged().len() == 0,
            old(self).staging() ==> (r matches Some(b) && b@.map_values(|m: Vec<u8>| m@) == old(self).staged()),
            !old(self).staging() ==> r is None,
            final(self).last_response() == seq![0u8, 0u8],
            final(self).state() == old(self).state(),
    {
        let was = self.agnss_write_in_progress;
        self.agnss_write_in_progress = false;
        let mut batch: Vec<Vec<u8>> = Vec::new();
        core::mem::swap(&mut batch, &mut self.agnss_messages);
        assert(self.staged() =~= Seq::<Seq<u8>>::empty());
        self.encode_empty_response();
        if was {
            Some(batch)
        } else {
            None
        }
    }
}

/// One step of a directory listing.
pub enum ListDirOutcome {
    Entry { is_dir: bool, name: Vec<u8>, size: u32 },
    Done,
    Error,
}

impl FileTransferProtocol {
    /// Response to list-dir: the entry, `[0x00]` when the listing is done, or
    /// the empty response on failure.
    pub fn encode_list_outcome(&mut self, outcome: &ListDirOutcome) -> (r: usize)
        ensures
            final(self).last_response() == match outcome {
                ListDirOutcome::Entry { is_dir, name, size } => response_frame(
                    list_entry_payload(*is_dir, name@, *size),
                ),
                ListDirOutcome::Done => response_frame(seq![0x00u8]),
                ListDirOutcome::Error => seq![0u8, 0u8],
            },
            r == final(self).last_response().len(),
            final(self).staged() == old(self).staged(),
            final(self).staging() == old(self).staging(),
            final(self).state() == old(self).state(),
            final(self).wf() == old(self).wf(),
    {
        match outcome {
            ListDirOutcome::Entry { is_dir, name, size } => self.encode_list_entry(
                *is_dir,
                name.as_slice(),
                *size,
            ),
            ListDirOutcome::Done => {
                let mut p: Vec<u8> = Vec::new();
                p.push(0x00);
                assert(p@ =~= seq![0x00u8]);
                self.encode_response(p.as_slice())
            },
            ListDirOutcome::Error => self.encode_empty_response(),
        }
    }

    /// Response to open-file: the size little-endian, or empty on failure.
    pub fn encode_open_result(&mut self, size: Option<u32>) -> (r: usize)
        ensures
            final(self).last_response() == match size {
                Some(n) => response_frame(le32_bytes(n)),
                None => seq![0u8, 0u8],
            },
            r == final(self).last_response().len(),
            final(self).staged() == old(self).staged(),
            final(self).state() == old(self).state(),
            final(self).wf() == old(self).wf(),
    {
        match size {
            Some(n) => {
                let mut p: Vec<u8> = Vec::new();
                p.push((n % 256) as u8);
                p.push(((n / 256) % 256) as u8);
                p.push(((n / 65536) % 256) as u8);
                p.push((n / 16777216) as u8);
                assert(p@ =~= le32_bytes(n));
                self.encode_response(p.as_slice())
            },
            None => self.encode_empty_response(),
        }
    }

    /// Response to read-chunk: the byte count little-endian, then the bytes
    /// read (none on failure).
    pub fn encode_read_result(&mut self, data: &[u8]) -> (r: usize)
        requires
            data@.len() <= READ_CHUNK_MAX_DATA,
        ensures
            final(self).last_response() == response_frame(
                seq![(data@.len() % 256) as u8, (data@.len() / 256) as u8] + data@,
            ),
            r == final(self).last_response().len(),
            final(self).staged() == old(self).staged(),
            final(self).state() == old(self).state(),
            final(self).wf() == old(self).wf(),
    {
        let n = data.len();
        let mut p: Vec<u8> = Vec::new();
        p.push((n % 256) as u8);
        p.push((n / 256) as u8);
        let ghost head = p@;
        let mut i: usize = 0;
        while i < n
            invariant
                n == data@.len(),
                i <= n,
                p@ == head + data@.subrange(0, i as int),
            decreases n - i,
        {
            p.push(data[i]);
            i = i + 1;
            assert(p@ =~= head + data@.subrange(0, i as int));
        }
        assert(data@.subrange(0, n as int) =~= data@);
        self.encode_response(p.as_slice())
    }
}

} // verus!
