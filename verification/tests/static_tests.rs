use aster_dyndbg::static_key::{
    disable_static_keys, enable_static_keys, find_sites_by_tag, init_static_keys, StaticKeyRegistry,
    StaticKeySite,
};
use aster_dyndbg::static_key_fallback;
use aster_dyndbg::static_patch::{
    apply_patch_transaction, dyndbg_patch_site, encode_instruction, encode_jmp_rel32, patch_5byte_slot,
    patch_5byte_slots, validate_patch_requests, PatchEnvironment, PatchError, PatchInstruction, PatchRequest,
};

fn smp(irqs: bool, ipi: bool) -> PatchEnvironment {
    PatchEnvironment { num_cpus: 4, in_bootstrap: false, irqs_enabled: irqs, ipi_ready: ipi }
}

fn single() -> PatchEnvironment {
    PatchEnvironment { num_cpus: 1, in_bootstrap: false, irqs_enabled: false, ipi_ready: false }
}

#[test]
fn jmp_encoding_forward_and_backward() {
    assert_eq!(encode_jmp_rel32(0x1000, 0x2000), Ok([0xe9, 0xfb, 0x0f, 0x00, 0x00]));
    assert_eq!(encode_jmp_rel32(0x2000, 0x1000), Ok([0xe9, 0xfb, 0xef, 0xff, 0xff]));
    assert_eq!(encode_jmp_rel32(0x1000, 0x1005), Ok([0xe9, 0, 0, 0, 0]));
}

#[test]
fn jmp_encoding_out_of_range() {
    assert_eq!(encode_jmp_rel32(usize::MAX - 2, 0), Err(PatchError::Rel32OutOfRange));
    assert_eq!(encode_jmp_rel32(0, 0x1_0000_0000), Err(PatchError::Rel32OutOfRange));
    assert_eq!(encode_jmp_rel32(0x1_0000_0000, 0), Err(PatchError::Rel32OutOfRange));
}

#[test]
fn nop_encoding() {
    assert_eq!(encode_instruction(0x1000, PatchInstruction::Nop5), Ok([0x0f, 0x1f, 0x44, 0x00, 0x00]));
}

#[test]
fn validation_errors() {
    let zero = [PatchRequest { instruction_address: 0, instruction: PatchInstruction::Nop5 }];
    assert_eq!(validate_patch_requests(&zero), Err(PatchError::InvalidSiteAddress));
    let far = [
        PatchRequest { instruction_address: 0x1000, instruction: PatchInstruction::Nop5 },
        PatchRequest { instruction_address: 8, instruction: PatchInstruction::JmpRel32 { target: 0x2_0000_0000 } },
    ];
    assert_eq!(validate_patch_requests(&far), Err(PatchError::Rel32OutOfRange));
    assert_eq!(patch_5byte_slots(&far, single()).unwrap_err(), PatchError::Rel32OutOfRange);
}

#[test]
fn transaction_environment_checks() {
    let req = [PatchRequest { instruction_address: 0x1000, instruction: PatchInstruction::Nop5 }];
    assert_eq!(apply_patch_transaction(&req, smp(false, true)).unwrap_err(), PatchError::IrqsDisabled);
    assert_eq!(apply_patch_transaction(&req, smp(true, false)).unwrap_err(), PatchError::SmpNotReady);
    let plan = apply_patch_transaction(&req, smp(true, true)).unwrap();
    assert_eq!(plan.target_count, 3);
    assert_eq!(plan.writes.len(), 1);
    assert_eq!(plan.writes[0].address, 0x1000);
    assert_eq!(plan.writes[0].bytes, [0x0f, 0x1f, 0x44, 0x00, 0x00]);
    let boot = PatchEnvironment { num_cpus: 4, in_bootstrap: true, irqs_enabled: false, ipi_ready: false };
    assert_eq!(apply_patch_transaction(&req, boot).unwrap().target_count, 0);
}

#[test]
fn empty_batch_and_single_slot() {
    let plan = patch_5byte_slots(&[], smp(false, false)).unwrap();
    assert_eq!(plan.target_count, 0);
    assert!(plan.writes.is_empty());
    let plan = patch_5byte_slot(0x1000, PatchInstruction::JmpRel32 { target: 0x2000 }, single()).unwrap();
    assert_eq!(plan.writes[0].bytes, [0xe9, 0xfb, 0x0f, 0x00, 0x00]);
    assert_eq!(patch_5byte_slot(0, PatchInstruction::Nop5, single()).unwrap_err(), PatchError::InvalidSiteAddress);
}

#[test]
fn static_keys_switch_in_batches() {
    let mut keys = StaticKeyRegistry::new(single());
    keys.register(StaticKeySite::new(0x1000, 0x2000, "dyndbg"));
    keys.register(StaticKeySite::new(0x3000, 0x4000, "SCHED_TRACE"));
    keys.register(StaticKeySite::new(0x5000, 0x6000, "dyndbg"));
    assert_eq!(init_static_keys(&keys), 3);
    assert_eq!(find_sites_by_tag(&keys, "dyndbg"), vec![0, 2]);
    assert_eq!(find_sites_by_tag(&keys, "none"), Vec::<usize>::new());
    enable_static_keys(&mut keys, &[0, 2]);
    assert!(keys.site(0).is_enabled());
    assert!(!keys.site(1).is_enabled());
    assert!(keys.site(2).is_enabled());
    let pending = keys.take_pending();
    assert_eq!(pending.len(), 1);
    let plan = pending[0].as_ref().unwrap();
    assert_eq!(plan.writes.len(), 2);
    assert_eq!(plan.writes[0].bytes, [0xe9, 0xfb, 0x0f, 0x00, 0x00]);
    enable_static_keys(&mut keys, &[0]);
    assert!(keys.take_pending().is_empty());
    disable_static_keys(&mut keys, &[0]);
    assert!(!keys.site(0).is_enabled());
    let pending = keys.take_pending();
    assert_eq!(pending[0].as_ref().unwrap().writes[0].bytes, [0x0f, 0x1f, 0x44, 0x00, 0x00]);
}

#[test]
fn fallback_keys_are_flags() {
    let mut reg = static_key_fallback::StaticKeyRegistry::new();
    let site = static_key_fallback::StaticKeySite::new_fallback();
    assert!(!site.is_enabled());
    let id = reg.register(site);
    assert!(!reg.is_enabled(id));
    static_key_fallback::enable_static_keys(&mut reg, &[id]);
    assert!(reg.is_enabled(id));
    static_key_fallback::disable_static_keys(&mut reg, &[id]);
    assert!(!reg.is_enabled(id));
    assert_eq!(static_key_fallback::init_static_keys(&reg), 1);
}

#[test]
fn patch_site_probe_is_never_taken() {
    assert!(!dyndbg_patch_site::<1, 2>());
}
