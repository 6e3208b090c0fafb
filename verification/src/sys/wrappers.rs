use vstd::prelude::*;

verus! {

/// System-call numbers.
#[derive(Debug, Clone, Copy, PartialEq, Eq, Structural)]
pub enum Sysno {
    Read,
    Write,
    Open,
    Close,
    Mmap,
    Brk,
    RtSigAction,
    RtSigProcMask,
    Ioctl,
    Writev,
    Sleep,
    GetPid,
    Spawn,
    Exit,
    Getdents,
    Getcwd,
    Chdir,
    Umask,
    GetUid,
    GeteUid,
    ArchPrctl,
    SetTidAddress,
    ExitGroup,
    Waitid,
    Ps,
}

pub open spec fn spec_sysno_value(s: Sysno) -> u64 {
    match s {
        Sysno::Read => 0,
        Sysno::Write => 1,
        Sysno::Open => 2,
        Sysno::Close => 3,
        Sysno::Mmap => 9,
        Sysno::Brk => 12,
        Sysno::RtSigAction => 13,
        Sysno::RtSigProcMask => 14,
        Sysno::Ioctl => 16,
        Sysno::Writev => 20,
        Sysno::Sleep => 35,
        Sysno::GetPid => 39,
        Sysno::Spawn => 59,
        Sysno::Exit => 60,
        Sysno::Getdents => 78,
        Sysno::Getcwd => 79,
        Sysno::Chdir => 80,
        Sysno::Umask => 95,
        Sysno::GetUid => 102,
        Sysno::GeteUid => 107,
        Sysno::ArchPrctl => 158,
        Sysno::SetTidAddress => 218,
        Sysno::ExitGroup => 231,
        Sysno::Waitid => 247,
        Sysno::Ps => 500,
    }
}

impl Sysno {
    pub fn as_u64(self) -> (r: u64)
        ensures
            r == spec_sysno_value(self),
    {
        match self {
            Sysno::Read => 0,
            Sysno::Write => 1,
            Sysno::Open => 2,
            Sysno::Close => 3,
            Sysno::Mmap => 9,
            Sysno::Brk => 12,
            Sysno::RtSigAction => 13,
            Sysno::RtSigProcMask => 14,
            Sysno::Ioctl => 16,
            Sysno::Writev => 20,
            Sysno::Sleep => 35,
            Sysno::GetPid => 39,
            Sysno::Spawn => 59,
            Sysno::Exit => 60,
            Sysno::Getdents => 78,
            Sysno::Getcwd => 79,
            Sysno::Chdir => 80,
            Sysno::Umask => 95,
            Sysno::GetUid => 102,
            Sysno::GeteUid => 107,
            Sysno::ArchPrctl => 158,
            Sysno::SetTidAddress => 218,
            Sysno::ExitGroup => 231,
            Sysno::Waitid => 247,
            Sysno::Ps => 500,
        }
    }

    /// The system call with this number, if there is one.
    pub fn try_from_u64(v: u64) -> (r: Option<Sysno>)
        ensures
            match r {
                Some(s) => spec_sysno_value(s) == v,
                None => forall|s: Sysno| spec_sysno_value(s) != v,
            },
    {
        let r = match v {
            0 => Some(Sysno::Read),
            1 => Some(Sysno::Write),
            2 => Some(Sysno::Open),
            3 => Some(Sysno::Close),
            9 => Some(Sysno::Mmap),
            12 => Some(Sysno::Brk),
            13 => Some(Sysno::RtSigAction),
            14 => Some(Sysno::RtSigProcMask),
            16 => Some(Sysno::Ioctl),
            20 => Some(Sysno::Writev),
            35 => Some(Sysno::Sleep),
            39 => Some(Sysno::GetPid),
            59 => Some(Sysno::Spawn),
            60 => Some(Sysno::Exit),
            78 => Some(Sysno::Getdents),
            79 => Some(Sysno::Getcwd),
            80 => Some(Sysno::Chdir),
            95 => Some(Sysno::Umask),
            102 => Some(Sysno::GetUid),
            107 => Some(Sysno::GeteUid),
            158 => Some(Sysno::ArchPrctl),
            218 => Some(Sysno::SetTidAddress),
            231 => Some(Sysno::ExitGroup),
            247 => Some(Sysno::Waitid),
            500 => Some(Sysno::Ps),
            _ => None,
        };
        proof {
            if r is None {
                assert forall|s: Sysno| spec_sysno_value(s) != v by {
                    match s {
                        _ => {},
                    }
                }
            }
        }
        r
    }
}

/// The variant's name, as its `Debug` form prints it.
pub open spec fn sysno_name(s: Sysno) -> Seq<u8> {
    match s {
        Sysno::Read => seq![0x52u8, 0x65u8, 0x61u8, 0x64u8],
        Sysno::Write => seq![0x57u8, 0x72u8, 0x69u8, 0x74u8, 0x65u8],
        Sysno::Open => seq![0x4Fu8, 0x70u8, 0x65u8, 0x6Eu8],
        Sysno::Close => seq![0x43u8, 0x6Cu8, 0x6Fu8, 0x73u8, 0x65u8],
        Sysno::Mmap => seq![0x4Du8, 0x6Du8, 0x61u8, 0x70u8],
        Sysno::Brk => seq![0x42u8, 0x72u8, 0x6Bu8],
        Sysno::RtSigAction => seq![0x52u8, 0x74u8, 0x53u8, 0x69u8, 0x67u8, 0x41u8, 0x63u8, 0x74u8, 0x69u8, 0x6Fu8, 0x6Eu8],
        Sysno::RtSigProcMask => seq![0x52u8, 0x74u8, 0x53u8, 0x69u8, 0x67u8, 0x50u8, 0x72u8, 0x6Fu8, 0x63u8, 0x4Du8, 0x61u8, 0x73u8, 0x6Bu8],
        Sysno::Ioctl => seq![0x49u8, 0x6Fu8, 0x63u8, 0x74u8, 0x6Cu8],
        Sysno::Writev => seq![0x57u8, 0x72u8, 0x69u8, 0x74u8, 0x65u8, 0x76u8],
        Sysno::Sleep => seq![0x53u8, 0x6Cu8, 0x65u8, 0x65u8, 0x70u8],
        Sysno::GetPid => seq![0x47u8, 0x65u8, 0x74u8, 0x50u8, 0x69u8, 0x64u8],
        Sysno::Spawn => seq![0x53u8, 0x70u8, 0x61u8, 0x77u8, 0x6Eu8],
        Sysno::Exit => seq![0x45u8, 0x78u8, 0x69u8, 0x74u8],
        Sysno::Getdents => seq![0x47u8, 0x65u8, 0x74u8, 0x64u8, 0x65u8, 0x6Eu8, 0x74u8, 0x73u8],
        Sysno::Getcwd => seq![0x47u8, 0x65u8, 0x74u8, 0x63u8, 0x77u8, 0x64u8],
        Sysno::Chdir => seq![0x43u8, 0x68u8, 0x64u8, 0x69u8, 0x72u8],
        Sysno::Umask => seq![0x55u8, 0x6Du8, 0x61u8, 0x73u8, 0x6Bu8],
        Sysno::GetUid => seq![0x47u8, 0x65u8, 0x74u8, 0x55u8, 0x69u8, 0x64u8],
        Sysno::GeteUid => seq![0x47u8, 0x65u8, 0x74u8, 0x65u8, 0x55u8, 0x69u8, 0x64u8],
        Sysno::ArchPrctl => seq![0x41u8, 0x72u8, 0x63u8, 0x68u8, 0x50u8, 0x72u8, 0x63u8, 0x74u8, 0x6Cu8],
        Sysno::SetTidAddress => seq![0x53u8, 0x65u8, 0x74u8, 0x54u8, 0x69u8, 0x64u8, 0x41u8, 0x64u8, 0x64u8, 0x72u8, 0x65u8, 0x73u8, 0x73u8],
        Sysno::ExitGroup => seq![0x45u8, 0x78u8, 0x69u8, 0x74u8, 0x47u8, 0x72u8, 0x6Fu8, 0x75u8, 0x70u8],
        Sysno::Waitid => seq![0x57u8, 0x61u8, 0x69u8, 0x74u8, 0x69u8, 0x64u8],
        Sysno::Ps => seq![0x50u8, 0x73u8],
    }
}

impl Sysno {
    /// The variant's name, as its `Debug` form prints it.
    pub fn name_bytes(self) -> (r: Vec<u8>)
        ensures
            r@ == sysno_name(self),
    {
        let r = match self {
            Sysno::Read => vec![0x52u8, 0x65u8, 0x61u8, 0x64u8],
            Sysno::Write => vec![0x57u8, 0x72u8, 0x69u8, 0x74u8, 0x65u8],
            Sysno::Open => vec![0x4Fu8, 0x70u8, 0x65u8, 0x6Eu8],
            Sysno::Close => vec![0x43u8, 0x6Cu8, 0x6Fu8, 0x73u8, 0x65u8],
            Sysno::Mmap => vec![0x4Du8, 0x6Du8, 0x61u8, 0x70u8],
            Sysno::Brk => vec![0x42u8, 0x72u8, 0x6Bu8],
            Sysno::RtSigAction => vec![0x52u8, 0x74u8, 0x53u8, 0x69u8, 0x67u8, 0x41u8, 0x63u8, 0x74u8, 0x69u8, 0x6Fu8, 0x6Eu8],
            Sysno::RtSigProcMask => vec![0x52u8, 0x74u8, 0x53u8, 0x69u8, 0x67u8, 0x50u8, 0x72u8, 0x6Fu8, 0x63u8, 0x4Du8, 0x61u8, 0x73u8, 0x6Bu8],
            Sysno::Ioctl => vec![0x49u8, 0x6Fu8, 0x63u8, 0x74u8, 0x6Cu8],
            Sysno::Writev => vec![0x57u8, 0x72u8, 0x69u8, 0x74u8, 0x65u8, 0x76u8],
            Sysno::Sleep => vec![0x53u8, 0x6Cu8, 0x65u8, 0x65u8, 0x70u8],
            Sysno::GetPid => vec![0x47u8, 0x65u8, 0x74u8, 0x50u8, 0x69u8, 0x64u8],
            Sysno::Spawn => vec![0x53u8, 0x70u8, 0x61u8, 0x77u8, 0x6Eu8],
            Sysno::Exit => vec![0x45u8, 0x78u8, 0x69u8, 0x74u8],
            Sysno::Getdents => vec![0x47u8, 0x65u8, 0x74u8, 0x64u8, 0x65u8, 0x6Eu8, 0x74u8, 0x73u8],
            Sysno::Getcwd => vec![0x47u8, 0x65u8, 0x74u8, 0x63u8, 0x77u8, 0x64u8],
            Sysno::Chdir => vec![0x43u8, 0x68u8, 0x64u8, 0x69u8, 0x72u8],
            Sysno::Umask => vec![0x55u8, 0x6Du8, 0x61u8, 0x73u8, 0x6Bu8],
            Sysno::GetUid => vec![0x47u8, 0x65u8, 0x74u8, 0x55u8, 0x69u8, 0x64u8],
            Sysno::GeteUid => vec![0x47u8, 0x65u8, 0x74u8, 0x65u8, 0x55u8, 0x69u8, 0x64u8],
            Sysno::ArchPrctl => vec![0x41u8, 0x72u8, 0x63u8, 0x68u8, 0x50u8, 0x72u8, 0x63u8, 0x74u8, 0x6Cu8],
            Sysno::SetTidAddress => vec![0x53u8, 0x65u8, 0x74u8, 0x54u8, 0x69u8, 0x64u8, 0x41u8, 0x64u8, 0x64u8, 0x72u8, 0x65u8, 0x73u8, 0x73u8],
            Sysno::ExitGroup => vec![0x45u8, 0x78u8, 0x69u8, 0x74u8, 0x47u8, 0x72u8, 0x6Fu8, 0x75u8, 0x70u8],
            Sysno::Waitid => vec![0x57u8, 0x61u8, 0x69u8, 0x74u8, 0x69u8, 0x64u8],
            Sysno::Ps => vec![0x50u8, 0x73u8],
        };
        assert(r@ =~= sysno_name(self));
        r
    }
}

/// Different calls have different numbers.
pub proof fn lemma_sysno_value_injective(a: Sysno, b: Sysno)
    requires
        spec_sysno_value(a) == spec_sysno_value(b),
    ensures
        a == b,
{
}

} // verus!
