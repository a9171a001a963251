use vstd::prelude::*;

verus! {

/// Size of the addressable store, in bytes.
pub const MEMORY_SIZE: usize = 4096;

/// Offset at which programs are loaded; the bytes below it are reserved.
pub const PROGRAM_START: usize = 512;

/// The largest program that fits above the reserved region.
pub const MAX_PROGRAM_LEN: usize = MEMORY_SIZE - PROGRAM_START;

/// Returned when a program does not fit between the load offset and the end of memory.
#[derive(Debug, Clone, Copy, PartialEq, Eq, Structural)]
pub struct ProgramTooLargeError;

/// The machine's byte store.
pub struct Memory {
    pub bytes: [u8; MEMORY_SIZE],
}

/// The store after `program` has been copied to the load offset.
pub open spec fn with_program(mem: Seq<u8>, program: Seq<u8>) -> Seq<u8> {
    Seq::new(
        mem.len(),
        |a: int|
            if PROGRAM_START <= a < PROGRAM_START + program.len() {
                program[a - PROGRAM_START]
            } else {
                mem[a]
            },
    )
}

impl View for Memory {
    type V = Seq<u8>;

    open spec fn view(&self) -> Seq<u8> {
        self.bytes@
    }
}

impl Memory {
    /// A store of zero bytes.
    pub fn default() -> (m: Self)
        ensures
            m@ == Seq::new(MEMORY_SIZE as nat, |a: int| 0u8),
    {
        let m = Memory { bytes: [0u8; MEMORY_SIZE] };
        assert(m@ =~= Seq::new(MEMORY_SIZE as nat, |a: int| 0u8));
        m
    }

    /// The byte at `addr`.
    pub fn read(&self, addr: u16) -> (b: u8)
        requires
            addr < MEMORY_SIZE,
        ensures
            b == self@[addr as int],
    {
        self.bytes[addr as usize]
    }

    /// Stores `value` at `addr`, leaving every other byte as it was.
    pub fn write(&mut self, addr: u16, value: u8)
        requires
            addr < MEMORY_SIZE,
        ensures
            final(self)@ == old(self)@.update(addr as int, value),
    {
        self.bytes[addr as usize] = value;
    }

    /// Copies `program` to the load offset. Fails, changing nothing, when it
    /// would run past the end of the store.
    pub fn load_program(&mut self, program: Vec<u8>) -> (r: Result<(), ProgramTooLargeError>)
        ensures
            r is Ok <==> program@.len() <= MAX_PROGRAM_LEN,
            r is Ok ==> final(self)@ == with_program(old(self)@, program@),
            r is Err ==> final(self)@ == old(self)@,
    {
        if program.len() > MAX_PROGRAM_LEN {
            return Err(ProgramTooLargeError);
        }
        let mut idx: usize = 0;
        while idx < program.len()
            invariant
                program@.len() <= MAX_PROGRAM_LEN,
                idx <= program@.len(),
                self@.len() == MEMORY_SIZE,
                forall|a: int|
                    0 <= a < MEMORY_SIZE ==> #[trigger] self@[a] == if PROGRAM_START <= a
                        < PROGRAM_START + idx {
                        program@[a - PROGRAM_START]
                    } else {
                        old(self)@[a]
                    },
            decreases program@.len() - idx,
        {
            self.bytes[PROGRAM_START + idx] = program[idx];
            idx = idx + 1;
        }
        assert(self@ =~= with_program(old(self)@, program@));
        Ok(())
    }
}

} // verus!
