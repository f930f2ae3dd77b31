//! Threads, and the initial stack of a new thread.
use vstd::prelude::*;
use crate::process::attributes::{IdCounter, ProcessId};
use crate::process::scheduler::queues::Priority;
use x86_64::registers::rflags::RFlags;

verus! {

/// The identifier of a thread.
#[derive(Debug, Clone, Copy, PartialEq, Eq, Structural)]
pub struct ThreadId(pub u64);

impl ThreadId {
    /// The next thread id from the given counter.
    pub fn new(counter: &mut IdCounter) -> (r: Self)
        ensures
            r.0 == old(counter)@,
            final(counter)@ == (if old(counter)@ == u64::MAX {
                0
            } else {
                old(counter)@ + 1
            }),
    {
        ThreadId(counter.next())
    }
}

/// The scheduling state of a thread.
#[derive(Debug, Clone, Copy, PartialEq, Eq, Structural)]
pub enum State {
    Ready,
    Running,
    Finished,
}

/// Byte `k` (counting from the least significant) of `v`.
pub open spec fn le_byte(v: u64, k: int) -> u8 {
    ((v >> ((8 * k) as u64)) & 0xff) as u8
}

/// The bytes of `v`, least significant first, as x86_64 stores them.
pub open spec fn le_bytes(v: u64) -> Seq<u8> {
    Seq::new(8, |k: int| le_byte(v, k))
}

/// The bytes of the words `ws`, each least significant byte first.
pub open spec fn words_bytes(ws: Seq<u64>) -> Seq<u8> {
    Seq::new(8 * ws.len(), |b: int| le_byte(ws[b / 8], b % 8))
}

/// `data` with `bytes` written over it from position `i` on.
pub open spec fn written(data: Seq<u8>, i: int, bytes: Seq<u8>) -> Seq<u8> {
    Seq::new(data.len(), |b: int| if i <= b < i + bytes.len() { bytes[b - i] } else { data[b] })
}

/// The registers that a thread's first switch restores from its stack, in the order
/// in which they lie in memory.
#[derive(Debug, Clone, Copy, PartialEq, Eq, Structural)]
pub struct ThreadState {
    pub r15: u64,
    pub r14: u64,
    pub r13: u64,
    pub r12: u64,
    pub r11: u64,
    pub r10: u64,
    pub r9: u64,
    pub r8: u64,
    pub rdi: u64,
    pub rsi: u64,
    pub rsp: u64,
    pub rbp: u64,
    pub rdx: u64,
    pub rcx: u64,
    pub rbx: u64,
    pub rax: u64,
    pub rflags: u64,
    pub rip: u64,
}

/// The size of a [`ThreadState`] in memory.
pub const THREAD_STATE_SIZE: usize = 144;

impl ThreadState {
    /// The registers in memory order.
    pub open spec fn words(self) -> Seq<u64> {
        seq![
            self.r15, self.r14, self.r13, self.r12, self.r11, self.r10, self.r9, self.r8,
            self.rdi, self.rsi, self.rsp, self.rbp, self.rdx, self.rcx, self.rbx, self.rax,
            self.rflags, self.rip,
        ]
    }

    /// All registers zero.
    pub open spec fn zero() -> Self {
        ThreadState {
            r15: 0,
            r14: 0,
            r13: 0,
            r12: 0,
            r11: 0,
            r10: 0,
            r9: 0,
            r8: 0,
            rdi: 0,
            rsi: 0,
            rsp: 0,
            rbp: 0,
            rdx: 0,
            rcx: 0,
            rbx: 0,
            rax: 0,
            rflags: 0,
            rip: 0,
        }
    }

    /// All registers zero.
    pub fn default() -> (r: Self)
        ensures
            r == Self::zero(),
    {
        ThreadState {
            r15: 0,
            r14: 0,
            r13: 0,
            r12: 0,
            r11: 0,
            r10: 0,
            r9: 0,
            r8: 0,
            rdi: 0,
            rsi: 0,
            rsp: 0,
            rbp: 0,
            rdx: 0,
            rcx: 0,
            rbx: 0,
            rax: 0,
            rflags: 0,
            rip: 0,
        }
    }

    /// The registers in memory order.
    pub fn to_words(&self) -> (r: Vec<u64>)
        ensures
            r@ == self.words(),
    {
        let v = vec![
            self.r15, self.r14, self.r13, self.r12, self.r11, self.r10, self.r9, self.r8,
            self.rdi, self.rsi, self.rsp, self.rbp, self.rdx, self.rcx, self.rbx, self.rax,
            self.rflags, self.rip,
        ];
        assert(v@ == self.words());
        v
    }
}

/// Writes values downwards into a stack, from its top.
pub struct StackWriter {
    i: usize,
    data: Vec<u8>,
}

impl StackWriter {
    /// The position at which the next value is written.
    pub closed spec fn spec_i(&self) -> usize {
        self.i
    }

    /// The stack's bytes.
    pub closed spec fn spec_data(&self) -> Seq<u8> {
        self.data@
    }

    /// A writer positioned at the top (the end) of `data`.
    pub fn new(data: Vec<u8>) -> (r: Self)
        ensures
            r.spec_i() == data.len(),
            r.spec_data() == data@,
    {
        let i = data.len();
        StackWriter { i, data }
    }

    /// Writes the words `ws` at the current position, each least significant byte first.
    pub fn write_words(&mut self, ws: &Vec<u64>)
        requires
            old(self).spec_i() + 8 * ws.len() <= old(self).spec_data().len(),
        ensures
            final(self).spec_i() == old(self).spec_i(),
            final(self).spec_data() == written(
                old(self).spec_data(),
                old(self).spec_i() as int,
                words_bytes(ws@),
            ),
    {
        let ghost old_data = self.data@;
        let ghost bytes = words_bytes(ws@);
        let data_len = self.data.len();
        assert(old_data.len() <= usize::MAX);
        let mut j: usize = 0;
        while j < ws.len()
            invariant
                self.i == old(self).i,
                self.i + 8 * ws.len() <= old_data.len(),
                self.data@.len() == old_data.len(),
                old_data.len() <= usize::MAX,
                j <= ws.len(),
                bytes == words_bytes(ws@),
                forall|b: int|
                    0 <= b < old_data.len() ==> #[trigger] self.data@[b] == (if self.i <= b < self.i
                        + 8 * j {
                        bytes[b - self.i]
                    } else {
                        old_data[b]
                    }),
            decreases ws.len() - j,
        {
            let w = ws[j];
            let mut k: usize = 0;
            while k < 8
                invariant
                    self.i == old(self).i,
                    self.i + 8 * ws.len() <= old_data.len(),
                    self.data@.len() == old_data.len(),
                    old_data.len() <= usize::MAX,
                    j < ws.len(),
                    k <= 8,
                    w == ws@[j as int],
                    bytes == words_bytes(ws@),
                    forall|b: int|
                        0 <= b < old_data.len() ==> #[trigger] self.data@[b] == (if self.i <= b
                            < self.i + 8 * j + k {
                            bytes[b - self.i]
                        } else {
                            old_data[b]
                        }),
                decreases 8 - k,
            {
                assert(self.i + 8 * j + k < old_data.len()) by (nonlinear_arith)
                    requires
                        self.i + 8 * ws.len() <= old_data.len(),
                        j < ws.len(),
                        k < 8,
                ;
                let pos = self.i + 8 * j + k;
                let byte = ((w >> (8 * k) as u64) & 0xff) as u8;
                self.data.set(pos, byte);
                proof {
                    let b0 = 8 * j + k;
                    assert(b0 / 8 == j && b0 % 8 == k) by (nonlinear_arith)
                        requires b0 == 8 * j + k, k < 8;
                    assert(bytes[b0 as int] == le_byte(ws@[j as int], k as int));
                }
                k = k + 1;
            }
            j = j + 1;
        }
        assert(self.data@ == written(old_data, self.i as int, bytes));
    }

    /// Writes `value` at the current position, least significant byte first.
    pub fn write_u64(&mut self, value: u64)
        requires
            old(self).spec_i() + 8 <= old(self).spec_data().len(),
        ensures
            final(self).spec_i() == old(self).spec_i(),
            final(self).spec_data() == written(
                old(self).spec_data(),
                old(self).spec_i() as int,
                words_bytes(seq![value]),
            ),
    {
        let ws = vec![value];
        assert(ws@ == seq![value]);
        self.write_words(&ws);
    }

    /// Writes the registers of `val` at the current position.
    pub fn write_thread_state(&mut self, val: ThreadState)
        requires
            old(self).spec_i() + THREAD_STATE_SIZE <= old(self).spec_data().len(),
        ensures
            final(self).spec_i() == old(self).spec_i(),
            final(self).spec_data() == written(
                old(self).spec_data(),
                old(self).spec_i() as int,
                words_bytes(val.words()),
            ),
    {
        let ws = val.to_words();
        self.write_words(&ws);
    }

    /// Moves the position one word (8 bytes) down.
    pub fn back_qword(&mut self)
        requires
            old(self).spec_i() >= 8,
        ensures
            final(self).spec_i() == old(self).spec_i() - 8,
            final(self).spec_data() == old(self).spec_data(),
    {
        self.back_n(8);
    }

    /// Moves the position `n` bytes down.
    pub fn back_n(&mut self, n: usize)
        requires
            old(self).spec_i() >= n,
        ensures
            final(self).spec_i() == old(self).spec_i() - n,
            final(self).spec_data() == old(self).spec_data(),
    {
        self.i = self.i - n;
    }

    /// The stack's bytes.
    pub fn into_inner(self) -> (r: Vec<u8>)
        ensures
            r@ == self.spec_data(),
    {
        self.data
    }
}

/// `RFlags::IOPL_LOW` of the `x86_64` crate, as bits: bit 12 of RFLAGS.
#[verifier::external_body]
fn rflags_iopl_low() -> (r: u64)
    ensures
        r == 0x1000,
{
    RFlags::IOPL_LOW.bits()
}

/// `RFlags::INTERRUPT_FLAG` of the `x86_64` crate, as bits: bit 9 of RFLAGS.
#[verifier::external_body]
fn rflags_interrupt_flag() -> (r: u64)
    ensures
        r == 0x200,
{
    RFlags::INTERRUPT_FLAG.bits()
}

/// The marker at the bottom of every thread stack.
pub const STACK_MARKER: u64 = 0xDEAD_CAFE_BEEF_BABE;

/// The register values with which a new thread starts: the stack and base pointer
/// point at the saved registers, `rdi` holds the argument, `rip` the entry point, and
/// interrupts are enabled.
pub open spec fn initial_thread_state(rsp: u64, entry_point: u64, arg: u64) -> ThreadState {
    ThreadState {
        r15: 0,
        r14: 0,
        r13: 0,
        r12: 0,
        r11: 0,
        r10: 0,
        r9: 0,
        r8: 0,
        rdi: arg,
        rsi: 0,
        rsp: rsp,
        rbp: rsp,
        rdx: 0,
        rcx: 0,
        rbx: 0,
        rax: 0,
        rflags: 0x1200,
        rip: entry_point,
    }
}

/// The stack of a new thread of `n` bytes whose saved registers begin at `rsp`: filled
/// with 0xCD, the marker in the top word, the return address below it, and the saved
/// registers below that.
pub open spec fn initial_stack(n: int, rsp: u64, entry_point: u64, arg: u64, return_address: u64) -> Seq<u8> {
    let filled = Seq::new(n as nat, |b: int| 0xCDu8);
    let with_marker = written(filled, n - 8, words_bytes(seq![STACK_MARKER]));
    let with_return = written(with_marker, n - 16, words_bytes(seq![return_address]));
    written(with_return, n - 16 - THREAD_STATE_SIZE, words_bytes(initial_thread_state(rsp, entry_point, arg).words()))
}

/// Prepares `stack`, which lies at address `stack_addr`, for the first switch to a new
/// thread, and returns the stack pointer at which the saved registers begin.
pub fn setup_stack(stack: Vec<u8>, stack_addr: u64, entry_point: u64, arg: u64, return_address: u64) -> (r: (Vec<u8>, usize))
    requires
        stack.len() >= 16 + THREAD_STATE_SIZE,
        stack_addr + stack.len() <= usize::MAX,
    ensures
        r.1 == stack_addr + stack.len() - 16 - THREAD_STATE_SIZE,
        r.0@ == initial_stack(stack.len() as int, r.1 as u64, entry_point, arg, return_address),
{
    let n = stack.len();
    let mut stack = stack;
    let mut b: usize = 0;
    while b < n
        invariant
            stack@.len() == n,
            b <= n,
            forall|c: int| 0 <= c < b ==> #[trigger] stack@[c] == 0xCDu8,
        decreases n - b,
    {
        stack.set(b, 0xCD);
        b = b + 1;
    }
    let ghost filled = Seq::new(n as nat, |c: int| 0xCDu8);
    assert(stack@ == filled);

    let mut writer = StackWriter::new(stack);
    writer.back_qword();
    writer.write_u64(STACK_MARKER);

    writer.back_qword();
    writer.write_u64(return_address);

    writer.back_n(THREAD_STATE_SIZE);
    let rsp = stack_addr + writer.i as u64;
    let rflags = rflags_iopl_low() | rflags_interrupt_flag();
    assert(0x1000u64 | 0x200u64 == 0x1200u64) by (bit_vector);
    let state = ThreadState {
        rsp,
        rdi: arg,
        rbp: rsp,
        rip: entry_point,
        rflags,
        ..ThreadState::default()
    };
    assert(state == initial_thread_state(rsp, entry_point, arg));
    writer.write_thread_state(state);
    (writer.into_inner(), rsp as usize)
}

/// The size of a thread's stack: 32 KiB.
pub open spec fn stack_size() -> usize {
    32768
}

/// A thread of a process.
#[derive(Debug)]
pub struct Thread {
    pub id: ThreadId,
    pub name: String,
    pub process: ProcessId,
    pub cr3_value: usize,
    pub priority: Priority,
    pub last_stack_ptr: usize,
    pub stack: Option<Vec<u8>>,
    pub state: State,
}

impl Thread {
    pub fn id(&self) -> (r: &ThreadId)
        ensures
            *r == self.id,
    {
        &self.id
    }

    pub fn name(&self) -> (r: &str)
        ensures
            r@ == self.name@,
    {
        self.name.as_str()
    }

    pub fn last_stack_ptr(&self) -> (r: usize)
        ensures
            r == self.last_stack_ptr,
    {
        self.last_stack_ptr
    }

    pub fn last_stack_ptr_mut(&mut self) -> (r: &mut usize)
        ensures
            *r == old(self).last_stack_ptr,
            final(self).last_stack_ptr == *final(r),
            final(self).id == old(self).id,
            final(self).name == old(self).name,
            final(self).process == old(self).process,
            final(self).cr3_value == old(self).cr3_value,
            final(self).priority == old(self).priority,
            final(self).stack == old(self).stack,
            final(self).state == old(self).state,
    {
        &mut self.last_stack_ptr
    }

    /// The process that the thread belongs to.
    pub fn process(&self) -> (r: ProcessId)
        ensures
            r == self.process,
    {
        self.process
    }

    pub fn state(&self) -> (r: State)
        ensures
            r == self.state,
    {
        self.state
    }

    pub fn set_state(&mut self, state: State)
        ensures
            *final(self) == (Thread { state, ..*old(self) }),
    {
        self.state = state;
    }

    pub fn priority(&self) -> (r: Priority)
        ensures
            r == self.priority,
    {
        self.priority
    }

    pub fn set_priority(&mut self, priority: Priority)
        ensures
            *final(self) == (Thread { priority, ..*old(self) }),
    {
        self.priority = priority;
    }

    /// A new ready thread of the given process, whose 32 KiB stack `stack` lies at
    /// `stack_addr` and is prepared to start at `entry_point` with `arg` and to return to
    /// `return_address`.
    pub fn new_ready(
        process: ProcessId,
        cr3_value: usize,
        name: String,
        priority: Priority,
        entry_point: u64,
        arg: u64,
        return_address: u64,
        stack: Vec<u8>,
        stack_addr: u64,
        ids: &mut IdCounter,
    ) -> (r: Thread)
        requires
            stack.len() == stack_size(),
            stack_addr + stack_size() <= usize::MAX,
        ensures
            r.id.0 == old(ids)@,
            final(ids)@ == (if old(ids)@ == u64::MAX {
                0
            } else {
                old(ids)@ + 1
            }),
            r.name == name,
            r.process == process,
            r.cr3_value == cr3_value,
            r.priority == priority,
            r.state == State::Ready,
            r.last_stack_ptr == stack_addr + stack_size() - 16 - THREAD_STATE_SIZE,
            r.stack matches Some(s) && s@ == initial_stack(
                stack_size() as int,
                r.last_stack_ptr as u64,
                entry_point,
                arg,
                return_address,
            ),
    {
        let id = ThreadId::new(ids);
        let (stack, rsp) = setup_stack(stack, stack_addr, entry_point, arg, return_address);
        Thread {
            id,
            name,
            process,
            cr3_value,
            priority,
            last_stack_ptr: rsp,
            stack: Some(stack),
            state: State::Ready,
        }
    }

    /// The thread that is already running when the scheduler starts: the kernel's own
    /// thread, without a stack of its own.
    pub fn kernel_thread(kernel_process: ProcessId, cr3_value: usize, ids: &mut IdCounter) -> (r: Thread)
        ensures
            r.id.0 == old(ids)@,
            final(ids)@ == (if old(ids)@ == u64::MAX {
                0
            } else {
                old(ids)@ + 1
            }),
            r.name@ == "kernel"@,
            r.process == kernel_process,
            r.cr3_value == cr3_value,
            r.priority == Priority::Normal,
            r.last_stack_ptr == 0,
            r.stack is None,
            r.state == State::Running,
    {
        let id = ThreadId::new(ids);
        Thread {
            id,
            name: String::from_str("kernel"),
            process: kernel_process,
            cr3_value,
            priority: Priority::Normal,
            last_stack_ptr: 0,
            stack: None,
            state: State::Running,
        }
    }
}

} // verus!
