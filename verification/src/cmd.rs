//! The command layer: turn a decoded frame (an array of bulk strings) into
//! a typed command, and execute commands against the backend store.  The
//! command name is matched case-insensitively; an unrecognized name still
//! executes and answers the fixed affirmative response.

use vstd::prelude::*;
use crate::backend::{alist_get, alist_set, Backend};
use crate::protocol::bulk_strings::BulkString;
use crate::protocol::model::FrameV;
use crate::protocol::null::RespNull;
use crate::protocol::map::RespMap;
use crate::protocol::protocols::{frames_view, pairs_view, RespFrame};
use crate::protocol::simple_string::SimpleString;
use crate::protocol::RespError;

verus! {

/// Why a frame failed to become a command.
#[derive(Debug, Clone, PartialEq, Eq, Structural)]
pub enum CommandError {
    /// The frame is not an array, or its first element is not a bulk string.
    InvalidCommand,
    /// A recognized command has the wrong arity or a malformed argument.
    InvalidArgument,
    /// A decoding failure carried through the command layer.
    RespError(RespError),
}

/// The view of a command: its recognized shape with plain byte arguments.
pub enum CmdV {
    Echo(Seq<u8>),
    Get(Seq<u8>),
    SetCmd(Seq<u8>, FrameV),
    HGet(Seq<u8>, Seq<u8>),
    HSet(Seq<u8>, Seq<u8>, FrameV),
    HGetAll(Seq<u8>),
    Unrecognized,
}

/// Echo a message back as a bulk string.
#[derive(Debug)]
pub struct Echo {
    key: Vec<u8>,
}

/// Read the value bound to a key.
#[derive(Debug)]
pub struct Get {
    key: Vec<u8>,
}

/// Bind a key to a value.
#[derive(Debug)]
pub struct SetCmd {
    key: Vec<u8>,
    value: RespFrame,
}

/// Read one field of a hash.
#[derive(Debug)]
pub struct HGet {
    key: Vec<u8>,
    field: Vec<u8>,
}

/// Bind one field of a hash.
#[derive(Debug)]
pub struct HSet {
    key: Vec<u8>,
    field: Vec<u8>,
    value: RespFrame,
}

/// Read a whole hash in insertion order.
#[derive(Debug)]
pub struct HGetAll {
    key: Vec<u8>,
}

/// A syntactically valid command whose name is not recognized; it executes
/// as a no-operation and answers the affirmative response.
#[derive(Debug)]
pub struct Unrecognized;

/// One executable command.
#[derive(Debug)]
pub enum Command {
    Echo(Echo),
    Get(Get),
    SetCmd(SetCmd),
    HGet(HGet),
    HSet(HSet),
    HGetAll(HGetAll),
    Unrecognized(Unrecognized),
}

impl DeepView for Command {
    type V = CmdV;

    closed spec fn deep_view(&self) -> CmdV {
        match self {
            Command::Echo(c) => CmdV::Echo(c.key@),
            Command::Get(c) => CmdV::Get(c.key@),
            Command::SetCmd(c) => CmdV::SetCmd(c.key@, c.value.deep_view()),
            Command::HGet(c) => CmdV::HGet(c.key@, c.field@),
            Command::HSet(c) => CmdV::HSet(c.key@, c.field@, c.value.deep_view()),
            Command::HGetAll(c) => CmdV::HGetAll(c.key@),
            Command::Unrecognized(_) => CmdV::Unrecognized,
        }
    }
}

/// ASCII lower case of a byte string.
pub open spec fn lower(s: Seq<u8>) -> Seq<u8> {
    Seq::new(
        s.len(),
        |i: int|
            if 65 <= s[i] <= 90 {
                (s[i] + 32) as u8
            } else {
                s[i]
            },
    )
}

/// A bulk-string argument at `i`, required by every key and field position.
pub open spec fn bulk_arg(es: Seq<FrameV>, i: int) -> Option<Seq<u8>> {
    match es[i] {
        FrameV::BulkString(p) => p,
        _ => None,
    }
}

/// What a command array means: the first element names the command, case-
/// insensitively; recognized names demand their exact arity and bulk-string
/// keys; unrecognized names are accepted as the no-operation command.
pub open spec fn spec_command_of_elems(es: Seq<FrameV>) -> Result<CmdV, CommandError> {
    if es.len() == 0 {
        Err(CommandError::InvalidCommand)
    } else {
        match es[0] {
            FrameV::BulkString(Some(name)) => {
                let n = lower(name);
                if n == seq![103u8, 101u8, 116u8] {
                    if es.len() != 2 {
                        Err(CommandError::InvalidArgument)
                    } else {
                        match bulk_arg(es, 1) {
                            Some(k) => Ok(CmdV::Get(k)),
                            None => Err(CommandError::InvalidArgument),
                        }
                    }
                } else if n == seq![101u8, 99u8, 104u8, 111u8] {
                    if es.len() != 2 {
                        Err(CommandError::InvalidArgument)
                    } else {
                        match bulk_arg(es, 1) {
                            Some(k) => Ok(CmdV::Echo(k)),
                            None => Err(CommandError::InvalidArgument),
                        }
                    }
                } else if n == seq![115u8, 101u8, 116u8] {
                    if es.len() != 3 {
                        Err(CommandError::InvalidArgument)
                    } else {
                        match bulk_arg(es, 1) {
                            Some(k) => Ok(CmdV::SetCmd(k, es[2])),
                            None => Err(CommandError::InvalidArgument),
                        }
                    }
                } else if n == seq![104u8, 103u8, 101u8, 116u8] {
                    if es.len() != 3 {
                        Err(CommandError::InvalidArgument)
                    } else {
                        match (bulk_arg(es, 1), bulk_arg(es, 2)) {
                            (Some(k), Some(f)) => Ok(CmdV::HGet(k, f)),
                            _ => Err(CommandError::InvalidArgument),
                        }
                    }
                } else if n == seq![104u8, 115u8, 101u8, 116u8] {
                    if es.len() != 4 {
                        Err(CommandError::InvalidArgument)
                    } else {
                        match (bulk_arg(es, 1), bulk_arg(es, 2)) {
                            (Some(k), Some(f)) => Ok(CmdV::HSet(k, f, es[3])),
                            _ => Err(CommandError::InvalidArgument),
                        }
                    }
                } else if n == seq![104u8, 103u8, 101u8, 116u8, 97u8, 108u8, 108u8] {
                    if es.len() != 2 {
                        Err(CommandError::InvalidArgument)
                    } else {
                        match bulk_arg(es, 1) {
                            Some(k) => Ok(CmdV::HGetAll(k)),
                            None => Err(CommandError::InvalidArgument),
                        }
                    }
                } else {
                    Ok(CmdV::Unrecognized)
                }
            },
            _ => Err(CommandError::InvalidCommand),
        }
    }
}

/// What a frame means as a command: it must be a present array.
pub open spec fn spec_command_of(f: FrameV) -> Result<CmdV, CommandError> {
    match f {
        FrameV::Array(Some(es)) => spec_command_of_elems(es),
        _ => Err(CommandError::InvalidCommand),
    }
}

/// ASCII lower case of a byte string.
fn to_lower(v: &Vec<u8>) -> (r: Vec<u8>)
    ensures
        r@ == lower(v@),
{
    let mut out: Vec<u8> = Vec::new();
    let mut i: usize = 0;
    while i < v.len()
        invariant
            i <= v@.len(),
            out@.len() == i,
            forall|j: int| 0 <= j < i ==> out@[j] == lower(v@)[j],
        decreases v@.len() - i,
    {
        let b = v[i];
        if 65 <= b && b <= 90 {
            out.push(b + 32);
        } else {
            out.push(b);
        }
        i = i + 1;
    }
    proof {
        assert(out@ =~= lower(v@));
    }
    out
}

/// Read the bulk-string payload of the argument at `i`, copied out.
fn take_bulk_arg(es: &Vec<RespFrame>, i: usize) -> (r: Option<Vec<u8>>)
    requires
        i < es@.len(),
    ensures
        match bulk_arg(frames_view(es@), i as int) {
            Some(k) => r matches Some(v) && v@ == k,
            None => r is None,
        },
{
    match &es[i] {
        RespFrame::BulkString(b) => match &b.0 {
            Some(k) => Some(crate::protocol::clone_bytes(k)),
            None => None,
        },
        _ => None,
    }
}

/// Turn a command array's elements into a typed command.
fn parse_command_elems(es: Vec<RespFrame>) -> (r: Result<Command, CommandError>)
    ensures
        match spec_command_of_elems(frames_view(es@)) {
            Ok(cv) => r matches Ok(c) && c.deep_view() == cv,
            Err(e) => r == Err::<Command, CommandError>(e),
        },
{
    let ghost ev = frames_view(es@);
    if es.len() == 0 {
        return Err(CommandError::InvalidCommand);
    }
    let name = match &es[0] {
        RespFrame::BulkString(b) => match &b.0 {
            Some(nm) => nm,
            None => {
                return Err(CommandError::InvalidCommand);
            },
        },
        _ => {
            return Err(CommandError::InvalidCommand);
        },
    };
    let n = to_lower(name);
    let code: u8 = if n.len() == 3 && n[0] == 103 && n[1] == 101 && n[2] == 116 {
        1
    } else if n.len() == 4 && n[0] == 101 && n[1] == 99 && n[2] == 104 && n[3] == 111 {
        2
    } else if n.len() == 3 && n[0] == 115 && n[1] == 101 && n[2] == 116 {
        3
    } else if n.len() == 4 && n[0] == 104 && n[1] == 103 && n[2] == 101 && n[3] == 116 {
        4
    } else if n.len() == 4 && n[0] == 104 && n[1] == 115 && n[2] == 101 && n[3] == 116 {
        5
    } else if n.len() == 7 && n[0] == 104 && n[1] == 103 && n[2] == 101 && n[3] == 116 && n[4]
        == 97 && n[5] == 108 && n[6] == 108 {
        6
    } else {
        0
    };
    proof {
        assert((code == 1) == (n@ == seq![103u8, 101u8, 116u8])) by {
            if n@.len() == 3 {
                assert(seq![103u8, 101u8, 116u8].len() == 3);
                if n@[0] == 103 && n@[1] == 101 && n@[2] == 116 {
                    assert(n@ =~= seq![103u8, 101u8, 116u8]);
                }
            }
        }
        assert((code == 2) == (n@ == seq![101u8, 99u8, 104u8, 111u8])) by {
            if n@.len() == 4 {
                if n@[0] == 101 && n@[1] == 99 && n@[2] == 104 && n@[3] == 111 {
                    assert(n@ =~= seq![101u8, 99u8, 104u8, 111u8]);
                }
            }
        }
        assert((code == 3) == (n@ == seq![115u8, 101u8, 116u8])) by {
            if n@.len() == 3 {
                if n@[0] == 115 && n@[1] == 101 && n@[2] == 116 {
                    assert(n@ =~= seq![115u8, 101u8, 116u8]);
                }
            }
        }
        assert((code == 4) == (n@ == seq![104u8, 103u8, 101u8, 116u8])) by {
            if n@.len() == 4 {
                if n@[0] == 104 && n@[1] == 103 && n@[2] == 101 && n@[3] == 116 {
                    assert(n@ =~= seq![104u8, 103u8, 101u8, 116u8]);
                }
            }
        }
        assert((code == 5) == (n@ == seq![104u8, 115u8, 101u8, 116u8])) by {
            if n@.len() == 4 {
                if n@[0] == 104 && n@[1] == 115 && n@[2] == 101 && n@[3] == 116 {
                    assert(n@ =~= seq![104u8, 115u8, 101u8, 116u8]);
                }
            }
        }
        assert((code == 6) == (n@ == seq![104u8, 103u8, 101u8, 116u8, 97u8, 108u8, 108u8])) by {
            if n@.len() == 7 {
                if n@[0] == 104 && n@[1] == 103 && n@[2] == 101 && n@[3] == 116 && n@[4] == 97
                    && n@[5] == 108 && n@[6] == 108 {
                    assert(n@ =~= seq![104u8, 103u8, 101u8, 116u8, 97u8, 108u8, 108u8]);
                }
            }
        }
        assert(ev[0] == es@[0].deep_view());
    }
    if code == 1 {
        if es.len() != 2 {
            return Err(CommandError::InvalidArgument);
        }
        match take_bulk_arg(&es, 1) {
            Some(k) => Ok(Command::Get(Get { key: k })),
            None => Err(CommandError::InvalidArgument),
        }
    } else if code == 2 {
        if es.len() != 2 {
            return Err(CommandError::InvalidArgument);
        }
        match take_bulk_arg(&es, 1) {
            Some(k) => Ok(Command::Echo(Echo { key: k })),
            None => Err(CommandError::InvalidArgument),
        }
    } else if code == 3 {
        if es.len() != 3 {
            return Err(CommandError::InvalidArgument);
        }
        match take_bulk_arg(&es, 1) {
            Some(k) => {
                let value = es[2].clone();
                proof {
                    assert(ev[2] == es@[2].deep_view());
                }
                Ok(Command::SetCmd(SetCmd { key: k, value }))
            },
            None => Err(CommandError::InvalidArgument),
        }
    } else if code == 4 {
        if es.len() != 3 {
            return Err(CommandError::InvalidArgument);
        }
        match take_bulk_arg(&es, 1) {
            Some(k) => match take_bulk_arg(&es, 2) {
                Some(f) => Ok(Command::HGet(HGet { key: k, field: f })),
                None => Err(CommandError::InvalidArgument),
            },
            None => Err(CommandError::InvalidArgument),
        }
    } else if code == 5 {
        if es.len() != 4 {
            return Err(CommandError::InvalidArgument);
        }
        match take_bulk_arg(&es, 1) {
            Some(k) => match take_bulk_arg(&es, 2) {
                Some(f) => {
                    let value = es[3].clone();
                    proof {
                        assert(ev[3] == es@[3].deep_view());
                    }
                    Ok(Command::HSet(HSet { key: k, field: f, value }))
                },
                None => Err(CommandError::InvalidArgument),
            },
            None => Err(CommandError::InvalidArgument),
        }
    } else if code == 6 {
        if es.len() != 2 {
            return Err(CommandError::InvalidArgument);
        }
        match take_bulk_arg(&es, 1) {
            Some(k) => Ok(Command::HGetAll(HGetAll { key: k })),
            None => Err(CommandError::InvalidArgument),
        }
    } else {
        Ok(Command::Unrecognized(Unrecognized))
    }
}

/// Turn a decoded frame into a typed command: the frame must be a present
/// array whose first element is a bulk string.
pub fn parse_command(frame: RespFrame) -> (r: Result<Command, CommandError>)
    ensures
        match spec_command_of(frame.deep_view()) {
            Ok(cv) => r matches Ok(c) && c.deep_view() == cv,
            Err(e) => r == Err::<Command, CommandError>(e),
        },
{
    match frame {
        RespFrame::Array(arr) => match arr.0 {
            Some(es) => parse_command_elems(es),
            None => Err(CommandError::InvalidCommand),
        },
        _ => Err(CommandError::InvalidCommand),
    }
}

impl TryFrom<RespFrame> for Command {
    type Error = CommandError;

    /// A frame becomes a command as `parse_command` says.
    fn try_from(v: RespFrame) -> (r: Result<Self, CommandError>) {
        parse_command(v)
    }
}

impl vstd::std_specs::convert::TryFromSpecImpl<RespFrame> for Command {
    open spec fn obeys_try_from_spec() -> bool {
        false
    }

    open spec fn try_from_spec(v: RespFrame) -> Result<Self, CommandError> {
        Err(CommandError::InvalidCommand)
    }
}

impl TryFrom<crate::protocol::array::RespArray> for Command {
    type Error = CommandError;

    /// An array frame becomes a command as `parse_command` says.
    fn try_from(v: crate::protocol::array::RespArray) -> (r: Result<Self, CommandError>) {
        parse_command(RespFrame::Array(v))
    }
}

impl vstd::std_specs::convert::TryFromSpecImpl<crate::protocol::array::RespArray> for Command {
    open spec fn obeys_try_from_spec() -> bool {
        false
    }

    open spec fn try_from_spec(v: crate::protocol::array::RespArray) -> Result<Self, CommandError> {
        Err(CommandError::InvalidCommand)
    }
}

/// The view of the fixed affirmative response: the simple string `OK`.
pub open spec fn ok_view() -> FrameV {
    FrameV::SimpleString(seq![79u8, 75u8])
}

/// The fixed affirmative response frame.
pub fn resp_ok() -> (r: RespFrame)
    ensures
        r.deep_view() == ok_view(),
{
    let mut t: Vec<u8> = Vec::new();
    t.push(79);
    t.push(75);
    proof {
        assert(t@ =~= seq![79u8, 75u8]);
    }
    RespFrame::SimpleString(SimpleString(t))
}


/// The response a command produces, as a function of the store's state.
pub open spec fn exec_result(
    c: CmdV,
    kv: Seq<(Seq<u8>, FrameV)>,
    hkv: Seq<(Seq<u8>, Seq<(Seq<u8>, FrameV)>)>,
) -> FrameV {
    match c {
        CmdV::Echo(k) => FrameV::BulkString(Some(k)),
        CmdV::Get(k) => match alist_get(kv, k) {
            Some(v) => v,
            None => FrameV::Null,
        },
        CmdV::SetCmd(_, _) => ok_view(),
        CmdV::HGet(k, f) => match alist_get(hkv, k) {
            Some(m) => match alist_get(m, f) {
                Some(v) => v,
                None => FrameV::Null,
            },
            None => FrameV::Null,
        },
        CmdV::HSet(_, _, _) => ok_view(),
        CmdV::HGetAll(k) => match alist_get(hkv, k) {
            Some(m) => FrameV::Pairs(
                Seq::new(m.len(), |i: int| (FrameV::BulkString(Some(m[i].0)), m[i].1)),
            ),
            None => FrameV::Null,
        },
        CmdV::Unrecognized => ok_view(),
    }
}

/// The plain keyspace after a command runs.
pub open spec fn exec_kv_after(c: CmdV, kv: Seq<(Seq<u8>, FrameV)>) -> Seq<(Seq<u8>, FrameV)> {
    match c {
        CmdV::SetCmd(k, v) => alist_set(kv, k, v),
        _ => kv,
    }
}

/// The hash keyspace after a command runs.
pub open spec fn exec_hkv_after(c: CmdV, hkv: Seq<(Seq<u8>, Seq<(Seq<u8>, FrameV)>)>) -> Seq<
    (Seq<u8>, Seq<(Seq<u8>, FrameV)>),
> {
    match c {
        CmdV::HSet(k, f, v) => {
            let prev = match alist_get(hkv, k) {
                Some(m) => m,
                None => Seq::<(Seq<u8>, FrameV)>::empty(),
            };
            alist_set(hkv, k, alist_set(prev, f, v))
        },
        _ => hkv,
    }
}

/// Running a command against the store: the response and the state change
/// are exactly what the command's view dictates.
pub trait CommandExecutor: Sized + DeepView<V = CmdV> {
    /// Execute the command, mutating the store and producing the response
    /// frame.
    fn execute(self, backend: &mut Backend) -> (r: RespFrame)
        ensures
            r.deep_view() == exec_result(
                self.deep_view(),
                old(backend).kv_map(),
                old(backend).hkv_map(),
            ),
            final(backend).kv_map() == exec_kv_after(self.deep_view(), old(backend).kv_map()),
            final(backend).hkv_map() == exec_hkv_after(
                self.deep_view(),
                old(backend).hkv_map(),
            ),
    ;
}

impl DeepView for Echo {
    type V = CmdV;

    closed spec fn deep_view(&self) -> CmdV {
        CmdV::Echo(self.key@)
    }
}

impl CommandExecutor for Echo {
    fn execute(self, backend: &mut Backend) -> (r: RespFrame) {
        RespFrame::BulkString(BulkString(Some(self.key)))
    }
}

impl DeepView for Get {
    type V = CmdV;

    closed spec fn deep_view(&self) -> CmdV {
        CmdV::Get(self.key@)
    }
}

impl CommandExecutor for Get {
    fn execute(self, backend: &mut Backend) -> (r: RespFrame) {
        match backend.get(&self.key) {
            Some(f) => f,
            None => RespFrame::Null(RespNull),
        }
    }
}

impl DeepView for SetCmd {
    type V = CmdV;

    closed spec fn deep_view(&self) -> CmdV {
        CmdV::SetCmd(self.key@, self.value.deep_view())
    }
}

impl CommandExecutor for SetCmd {
    fn execute(self, backend: &mut Backend) -> (r: RespFrame) {
        backend.set(self.key, self.value);
        resp_ok()
    }
}

impl DeepView for HGet {
    type V = CmdV;

    closed spec fn deep_view(&self) -> CmdV {
        CmdV::HGet(self.key@, self.field@)
    }
}

impl CommandExecutor for HGet {
    fn execute(self, backend: &mut Backend) -> (r: RespFrame) {
        match backend.hget(&self.key, &self.field) {
            Some(f) => f,
            None => RespFrame::Null(RespNull),
        }
    }
}

impl DeepView for HSet {
    type V = CmdV;

    closed spec fn deep_view(&self) -> CmdV {
        CmdV::HSet(self.key@, self.field@, self.value.deep_view())
    }
}

impl CommandExecutor for HSet {
    fn execute(self, backend: &mut Backend) -> (r: RespFrame) {
        backend.hset(self.key, self.field, self.value);
        resp_ok()
    }
}

impl DeepView for HGetAll {
    type V = CmdV;

    closed spec fn deep_view(&self) -> CmdV {
        CmdV::HGetAll(self.key@)
    }
}

impl CommandExecutor for HGetAll {
    fn execute(self, backend: &mut Backend) -> (r: RespFrame) {
        match backend.hgetall(&self.key) {
            Some(l) => {
                let ghost inner = crate::backend::kv_view(l@);
                let mut list = l;
                let mut out: Vec<(RespFrame, RespFrame)> = Vec::new();
                let mut i: usize = 0;
                let total = list.len();
                proof {
                    assert(inner.len() == total);
                    assert(crate::backend::kv_view(list@) =~= inner.skip(0));
                }
                while list.len() > 0
                    invariant
                        inner.len() <= usize::MAX,
                        i + list@.len() == inner.len(),
                        out@.len() == i,
                        crate::backend::kv_view(list@) =~= inner.skip(i as int),
                        forall|j: int|
                            0 <= j < i ==> (#[trigger] out@[j]).0.deep_view()
                                == FrameV::BulkString(Some(inner[j].0)) && out@[j].1.deep_view()
                                == inner[j].1,
                    decreases list@.len(),
                {
                    let ghost lv = crate::backend::kv_view(list@);
                    let (fk, fv) = list.remove(0);
                    proof {
                        assert(lv[0] == (fk@, fv.deep_view()));
                        assert(lv[0] == inner.skip(i as int)[0]);
                        assert(inner.skip(i as int)[0] == inner[i as int]);
                        assert(crate::backend::kv_view(list@) =~= lv.skip(1));
                        assert(lv.skip(1) =~= inner.skip(i + 1 as int));
                    }
                    out.push((RespFrame::BulkString(BulkString(Some(fk))), fv));
                    i = i + 1;
                }
                proof {
                    let target = Seq::new(
                        inner.len(),
                        |j: int| (FrameV::BulkString(Some(inner[j].0)), inner[j].1),
                    );
                    assert(pairs_view(out@) =~= target);
                }
                RespFrame::Pairs(RespMap(out))
            },
            None => RespFrame::Null(RespNull),
        }
    }
}

impl DeepView for Unrecognized {
    type V = CmdV;

    closed spec fn deep_view(&self) -> CmdV {
        CmdV::Unrecognized
    }
}

impl CommandExecutor for Unrecognized {
    fn execute(self, backend: &mut Backend) -> (r: RespFrame) {
        resp_ok()
    }
}

impl CommandExecutor for Command {
    fn execute(self, backend: &mut Backend) -> (r: RespFrame) {
        match self {
            Command::Echo(c) => c.execute(backend),
            Command::Get(c) => c.execute(backend),
            Command::SetCmd(c) => c.execute(backend),
            Command::HGet(c) => c.execute(backend),
            Command::HSet(c) => c.execute(backend),
            Command::HGetAll(c) => c.execute(backend),
            Command::Unrecognized(c) => c.execute(backend),
        }
    }
}

} // verus!
