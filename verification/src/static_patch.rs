//! Planning of 5-byte instruction-slot patches: each slot becomes either a
//! 5-byte NOP or a `JMP rel32`.  The library validates and encodes a batch
//! and decides whether the SMP rendezvous may run; the kernel performs the
//! rendezvous and the byte writes that the plan lists.
use vstd::prelude::*;

verus! {

/// Fixed slot size of a patch site.
pub const PATCH_SLOT_SIZE: usize = 5;

/// The instruction to write into a 5-byte patch slot.
#[derive(Debug, Clone, Copy, PartialEq, Eq, Structural)]
pub enum PatchInstruction {
    /// 5-byte NOP: `0F 1F 44 00 00`.
    Nop5,
    /// 5-byte near jump: `E9 <rel32>`.
    JmpRel32 {
        /// Absolute address of jump target.
        target: usize,
    },
}

/// A single patch request within a batch transaction.
#[derive(Debug, Clone, Copy, PartialEq, Eq, Structural)]
pub struct PatchRequest {
    /// Address of the 5-byte instruction slot to patch.
    pub instruction_address: usize,
    /// Instruction to write into the patch slot.
    pub instruction: PatchInstruction,
}

/// Errors returned by patch operations.
#[derive(Debug, Clone, Copy, PartialEq, Eq, Structural)]
pub enum PatchError {
    /// The site address is not usable.
    InvalidSiteAddress,
    /// The target is out of `rel32` range for `JMP`.
    Rel32OutOfRange,
    /// The local IRQs are disabled, so SMP rendezvous cannot proceed safely.
    IrqsDisabled,
    /// SMP is active but the IPI sender is not ready.
    SmpNotReady,
}

/// What the patching CPU knows of the machine when a transaction starts.
#[derive(Debug, Clone, Copy)]
pub struct PatchEnvironment {
    /// Number of CPUs.
    pub num_cpus: usize,
    /// The kernel is still in its single-CPU bootstrap phase.
    pub in_bootstrap: bool,
    /// Local IRQs are enabled on the patching CPU.
    pub irqs_enabled: bool,
    /// The inter-processor-call sender is initialised.
    pub ipi_ready: bool,
}

/// One slot write of a transaction.
#[derive(Debug, Clone, Copy)]
pub struct PatchWrite {
    pub address: usize,
    pub bytes: [u8; 5],
}

/// A validated transaction: how many remote CPUs must be parked in the
/// rendezvous, and the slot writes to perform, in request order.
#[derive(Debug)]
pub struct PatchPlan {
    pub target_count: usize,
    pub writes: Vec<PatchWrite>,
}

/// `0F 1F 44 00 00`.
pub open spec fn nop5_bytes() -> Seq<u8> {
    seq![0x0fu8, 0x1fu8, 0x44u8, 0x00u8, 0x00u8]
}

/// Little-endian bytes of the two's-complement 32-bit value of `rel`
/// (`i32::MIN <= rel <= i32::MAX`).
pub open spec fn rel32_le(rel: int) -> Seq<u8> {
    let u = if rel < 0 {
        rel + 0x1_0000_0000
    } else {
        rel
    };
    seq![
        (u % 256) as u8,
        ((u / 256) % 256) as u8,
        ((u / 0x1_0000) % 256) as u8,
        ((u / 0x100_0000) % 256) as u8,
    ]
}

/// Encoding of `JMP rel32` at `site` to `target`: the offset is taken from
/// the end of the 5-byte slot and must fit in an `i32`.
pub open spec fn jmp_rel32_encoding(site: int, target: int) -> Result<Seq<u8>, PatchError> {
    let next_ip = site + 5;
    if next_ip > usize::MAX {
        Err(PatchError::Rel32OutOfRange)
    } else if target - next_ip < -0x8000_0000 || target - next_ip > 0x7fff_ffff {
        Err(PatchError::Rel32OutOfRange)
    } else {
        Ok(seq![0xe9u8] + rel32_le(target - next_ip))
    }
}

/// Encoding of `instruction` in the slot at `site`.
pub open spec fn instruction_encoding(site: int, instruction: PatchInstruction) -> Result<
    Seq<u8>,
    PatchError,
> {
    match instruction {
        PatchInstruction::Nop5 => Ok(nop5_bytes()),
        PatchInstruction::JmpRel32 { target } => jmp_rel32_encoding(site, target as int),
    }
}

/// Why a single request is refused, if it is.
pub open spec fn request_error(r: PatchRequest) -> Option<PatchError> {
    if r.instruction_address == 0 {
        Some(PatchError::InvalidSiteAddress)
    } else {
        match instruction_encoding(r.instruction_address as int, r.instruction) {
            Err(e) => Some(e),
            Ok(_) => None,
        }
    }
}

/// The error of the first refused request of a batch, if any.
pub open spec fn validation(requests: Seq<PatchRequest>) -> Result<(), PatchError>
    decreases requests.len(),
{
    if requests.len() == 0 {
        Ok(())
    } else {
        match request_error(requests[0]) {
            Some(e) => Err(e),
            None => validation(requests.drop_first()),
        }
    }
}

/// The plan as plain values: target count and `(address, bytes)` writes.
pub struct PlanView {
    pub target_count: int,
    pub writes: Seq<(usize, Seq<u8>)>,
}

impl PatchPlan {
    pub open spec fn plan_view(&self) -> PlanView {
        PlanView {
            target_count: self.target_count as int,
            writes: self.writes@.map_values(|w: PatchWrite| (w.address, w.bytes@)),
        }
    }
}

/// The writes of a validated batch: each request's address with its encoding.
pub open spec fn planned_writes(requests: Seq<PatchRequest>) -> Seq<(usize, Seq<u8>)> {
    requests.map_values(
        |r: PatchRequest|
            (
                r.instruction_address,
                instruction_encoding(r.instruction_address as int, r.instruction)->Ok_0,
            ),
    )
}

/// Outcome of a transaction on a validated, non-empty batch: with more than
/// one CPU outside bootstrap, local IRQs must be on and the IPI sender ready,
/// and every other CPU joins the rendezvous.
pub open spec fn transaction_outcome(requests: Seq<PatchRequest>, env: PatchEnvironment) -> Result<
    PlanView,
    PatchError,
> {
    if env.num_cpus > 1 && !env.in_bootstrap && !env.irqs_enabled {
        Err(PatchError::IrqsDisabled)
    } else if env.num_cpus > 1 && !env.in_bootstrap && !env.ipi_ready {
        Err(PatchError::SmpNotReady)
    } else {
        Ok(
            PlanView {
                target_count: if env.num_cpus > 1 && !env.in_bootstrap {
                    env.num_cpus - 1
                } else {
                    0
                },
                writes: planned_writes(requests),
            },
        )
    }
}

/// Outcome of patching a batch: nothing for an empty batch, else the first
/// validation error or the transaction outcome.
pub open spec fn batch_outcome(requests: Seq<PatchRequest>, env: PatchEnvironment) -> Result<
    PlanView,
    PatchError,
> {
    if requests.len() == 0 {
        Ok(PlanView { target_count: 0, writes: Seq::empty() })
    } else {
        match validation(requests) {
            Err(e) => Err(e),
            Ok(_) => transaction_outcome(requests, env),
        }
    }
}

pub open spec fn result_plan_view(r: Result<PatchPlan, PatchError>) -> Result<PlanView, PatchError> {
    match r {
        Ok(p) => Ok(p.plan_view()),
        Err(e) => Err(e),
    }
}

/// Encode a `JMP rel32` placed at `site_address` and jumping to `target`.
pub fn encode_jmp_rel32(site_address: usize, target: usize) -> (r: Result<[u8; 5], PatchError>)
    ensures
        match r {
            Ok(b) => jmp_rel32_encoding(site_address as int, target as int) == Ok::<Seq<u8>, PatchError>(b@),
            Err(e) => jmp_rel32_encoding(site_address as int, target as int) == Err::<Seq<u8>, PatchError>(e),
        },
{
    let next_ip = match site_address.checked_add(PATCH_SLOT_SIZE) {
        Some(n) => n,
        None => return Err(PatchError::Rel32OutOfRange),
    };
    let rel: i128 = (target as i128) - (next_ip as i128);
    if rel < -0x8000_0000i128 || rel > 0x7fff_ffffi128 {
        return Err(PatchError::Rel32OutOfRange);
    }
    let u: u64 = if rel < 0 {
        (rel + 0x1_0000_0000i128) as u64
    } else {
        rel as u64
    };
    let bytes: [u8; 5] = [
        0xe9u8,
        (u % 256) as u8,
        ((u / 256) % 256) as u8,
        ((u / 0x1_0000) % 256) as u8,
        ((u / 0x100_0000) % 256) as u8,
    ];
    assert(bytes@ =~= seq![0xe9u8] + rel32_le(rel as int));
    Ok(bytes)
}

/// Encode `instruction` for the slot at `site_address`.
pub fn encode_instruction(site_address: usize, instruction: PatchInstruction) -> (r: Result<
    [u8; 5],
    PatchError,
>)
    ensures
        match r {
            Ok(b) => instruction_encoding(site_address as int, instruction) == Ok::<
                Seq<u8>,
                PatchError,
            >(b@),
            Err(e) => instruction_encoding(site_address as int, instruction) == Err::<
                Seq<u8>,
                PatchError,
            >(e),
        },
{
    match instruction {
        PatchInstruction::Nop5 => {
            let bytes: [u8; 5] = [0x0fu8, 0x1fu8, 0x44u8, 0x00u8, 0x00u8];
            assert(bytes@ =~= nop5_bytes());
            Ok(bytes)
        },
        PatchInstruction::JmpRel32 { target } => encode_jmp_rel32(site_address, target),
    }
}

proof fn lemma_validation_prefix(requests: Seq<PatchRequest>, i: int)
    requires
        0 <= i < requests.len(),
        forall|k: int| 0 <= k < i ==> request_error(#[trigger] requests[k]) is None,
    ensures
        validation(requests) == validation(requests.subrange(i, requests.len() as int)),
    decreases i,
{
    if i > 0 {
        lemma_validation_prefix(requests.drop_first(), i - 1);
        assert(requests.drop_first().subrange(i - 1, requests.drop_first().len() as int)
            =~= requests.subrange(i, requests.len() as int));
    } else {
        assert(requests.subrange(0, requests.len() as int) =~= requests);
    }
}

proof fn lemma_validation_all_ok(requests: Seq<PatchRequest>)
    requires
        forall|k: int| 0 <= k < requests.len() ==> request_error(#[trigger] requests[k]) is None,
    ensures
        validation(requests) == Ok::<(), PatchError>(()),
    decreases requests.len(),
{
    if requests.len() > 0 {
        assert forall|k: int| 0 <= k < requests.drop_first().len() implies request_error(
            #[trigger] requests.drop_first()[k],
        ) is None by {
            assert(requests.drop_first()[k] == requests[k + 1]);
        }
        lemma_validation_all_ok(requests.drop_first());
    }
}

proof fn lemma_validation_ok_each(requests: Seq<PatchRequest>, k: int)
    requires
        validation(requests) is Ok,
        0 <= k < requests.len(),
    ensures
        request_error(requests[k]) is None,
    decreases requests.len(),
{
    if k > 0 {
        lemma_validation_ok_each(requests.drop_first(), k - 1);
    }
}

/// Check every request of a batch: a zero slot address or an encoding
/// failure refuses it; the first refusal is returned.
pub fn validate_patch_requests(requests: &[PatchRequest]) -> (r: Result<(), PatchError>)
    ensures
        r == validation(requests@),
{
    let mut i: usize = 0;
    while i < requests.len()
        invariant
            i <= requests@.len(),
            forall|k: int| 0 <= k < i ==> request_error(#[trigger] requests@[k]) is None,
        decreases requests.len() - i,
    {
        let request = requests[i];
        if request.instruction_address == 0 {
            proof {
                lemma_validation_prefix(requests@, i as int);
            }
            return Err(PatchError::InvalidSiteAddress);
        }
        match encode_instruction(request.instruction_address, request.instruction) {
            Err(e) => {
                proof {
                    lemma_validation_prefix(requests@, i as int);
                }
                return Err(e);
            },
            Ok(_) => {},
        }
        i += 1;
    }
    proof {
        lemma_validation_all_ok(requests@);
    }
    Ok(())
}

/// Decide the transaction for a validated, non-empty batch and encode its
/// writes.  The kernel then parks `target_count` CPUs, writes the slots with
/// write protection lifted and IRQs off, and releases the CPUs.
pub fn apply_patch_transaction(requests: &[PatchRequest], env: PatchEnvironment) -> (r: Result<
    PatchPlan,
    PatchError,
>)
    requires
        validation(requests@) is Ok,
    ensures
        result_plan_view(r) == transaction_outcome(requests@, env),
{
    let mut target_count: usize = 0;
    if env.num_cpus > 1 && !env.in_bootstrap {
        if !env.irqs_enabled {
            return Err(PatchError::IrqsDisabled);
        }
        if !env.ipi_ready {
            return Err(PatchError::SmpNotReady);
        }
        target_count = env.num_cpus - 1;
    }
    let mut writes: Vec<PatchWrite> = Vec::new();
    let mut i: usize = 0;
    while i < requests.len()
        invariant
            i <= requests@.len(),
            validation(requests@) is Ok,
            writes@.map_values(|w: PatchWrite| (w.address, w.bytes@)) =~= planned_writes(
                requests@,
            ).subrange(0, i as int),
        decreases requests.len() - i,
    {
        let request = requests[i];
        proof {
            lemma_validation_ok_each(requests@, i as int);
        }
        let bytes = match encode_instruction(request.instruction_address, request.instruction) {
            Ok(b) => b,
            Err(e) => return Err(e),
        };
        let ghost old_view = writes@.map_values(|w: PatchWrite| (w.address, w.bytes@));
        writes.push(PatchWrite { address: request.instruction_address, bytes });
        assert(planned_writes(requests@)[i as int] == (request.instruction_address, bytes@));
        assert(writes@.map_values(|w: PatchWrite| (w.address, w.bytes@)) =~= old_view.push(
            (request.instruction_address, bytes@),
        ));
        i += 1;
    }
    let plan = PatchPlan { target_count, writes };
    assert(plan.plan_view().writes =~= planned_writes(requests@));
    Ok(plan)
}

/// Patch several 5-byte slots as one transaction: an empty batch needs
/// nothing; otherwise every request is validated first.
pub fn patch_5byte_slots(requests: &[PatchRequest], env: PatchEnvironment) -> (r: Result<
    PatchPlan,
    PatchError,
>)
    ensures
        result_plan_view(r) == batch_outcome(requests@, env),
{
    if requests.len() == 0 {
        let plan = PatchPlan { target_count: 0, writes: Vec::new() };
        assert(plan.plan_view().writes =~= Seq::<(usize, Seq<u8>)>::empty());
        return Ok(plan);
    }
    match validate_patch_requests(requests) {
        Err(e) => Err(e),
        Ok(()) => apply_patch_transaction(requests, env),
    }
}

/// Patch the one 5-byte slot at `site_address`.
pub fn patch_5byte_slot(
    site_address: usize,
    instruction: PatchInstruction,
    env: PatchEnvironment,
) -> (r: Result<PatchPlan, PatchError>)
    ensures
        result_plan_view(r) == batch_outcome(
            seq![PatchRequest { instruction_address: site_address, instruction }],
            env,
        ),
{
    let requests = vec![PatchRequest { instruction_address: site_address, instruction }];
    assert(requests@ =~= seq![PatchRequest { instruction_address: site_address, instruction }]);
    patch_5byte_slots(requests.as_slice(), env)
}

/// The patch-site probe of a call site on an architecture without
/// instruction patching: the site is never taken.
pub fn dyndbg_patch_site<const LINE: u32, const COLUMN: u32>() -> (r: bool)
    ensures
        !r,
{
    false
}

} // verus!
