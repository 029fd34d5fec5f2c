use cache_sim::algorithm::CacheAlgorithm;
use cache_sim::backend::{Marshaling, NativePolicyModule, SandboxAction, SandboxBackend};
use cache_sim::fifo::FiFo;
use cache_sim::lfu::LFU;
use cache_sim::record::FileRecord;
use cache_sim::wire::{decode_envelope, decode_fixed, encode_envelope, encode_fixed};

fn trace() -> Vec<FileRecord> {
    (0..60).map(|i| FileRecord::new((i * 3 % 10) as i32, (i % 3 + 1) as i64)).collect()
}

fn setups(actions: &[SandboxAction]) -> usize {
    actions
        .iter()
        .filter(|a| matches!(a, SandboxAction::Instantiate | SandboxAction::ResolveExports))
        .count()
}

fn run_plans(b: &SandboxBackend, records: &[FileRecord]) -> Vec<SandboxAction> {
    let mut all = b.initialize_plan(100);
    for r in records {
        all.extend(b.request_plan(r));
    }
    all.extend(b.stats_plan());
    all
}

#[test]
fn envelope_layout() {
    let r = FileRecord::new(0x01020304, 0x0A0B0C0D0E0F1011);
    assert_eq!(
        encode_envelope(&r),
        vec![4, 3, 2, 1, 0x11, 0x10, 0x0F, 0x0E, 0x0D, 0x0C, 0x0B, 0x0A]
    );
}

#[test]
fn fixed_layout() {
    let r = FileRecord::new(-1, 2);
    assert_eq!(
        encode_fixed(&r),
        vec![0xFF, 0xFF, 0xFF, 0xFF, 0, 0, 0, 0, 2, 0, 0, 0, 0, 0, 0, 0]
    );
}

#[test]
fn encodings_round_trip() {
    for r in [FileRecord::new(7, 12345), FileRecord::new(-5, i64::MAX), FileRecord::new(i32::MIN, 0)] {
        assert_eq!(decode_envelope(&encode_envelope(&r)), Some(r));
        assert_eq!(decode_fixed(&encode_fixed(&r)), Some(r));
    }
}

#[test]
fn malformed_buffers_are_refused() {
    assert_eq!(decode_envelope(&[0u8; 11]), None);
    assert_eq!(decode_fixed(&[0u8; 12]), None);
    let mut b = encode_fixed(&FileRecord::new(1, 1));
    b[5] = 1;
    assert_eq!(decode_fixed(&b), None);
}

#[test]
fn native_backends_agree_with_direct_policy() {
    let t = trace();
    let mut native: NativePolicyModule<FiFo> = NativePolicyModule::new();
    native.initialize(12);
    for r in &t {
        assert_eq!(native.send_request(*r), Ok(()));
    }
    let direct = FiFo::replay(12, &t);
    assert_eq!(native.stats(), direct.stats());
}

#[test]
fn marshaled_requests_carry_the_same_record() {
    let r = FileRecord::new(42, 4096);
    for m in [Marshaling::RawArgument, Marshaling::SerializedEnvelope, Marshaling::ZeroCopyCast] {
        let plan = SandboxBackend::new(m, true).request_plan(&r);
        let got = match &plan[0] {
            SandboxAction::CallPair { label, size } => Some(FileRecord::new(*label, *size)),
            SandboxAction::WriteMemory { bytes, .. } if m == Marshaling::SerializedEnvelope => {
                decode_envelope(bytes)
            }
            SandboxAction::WriteMemory { bytes, .. } => decode_fixed(bytes),
            _ => None,
        };
        assert_eq!(got, Some(r));
    }
}

#[test]
fn cached_backend_sets_up_once() {
    let t = trace();
    for m in [Marshaling::RawArgument, Marshaling::SerializedEnvelope, Marshaling::ZeroCopyCast] {
        let cached = run_plans(&SandboxBackend::new(m, true), &t);
        let uncached = run_plans(&SandboxBackend::new(m, false), &t);
        assert_eq!(setups(&cached), 2);
        assert_eq!(setups(&uncached), 3 + t.len());
    }
}

#[test]
fn native_lfu_counts_hits() {
    let mut native: NativePolicyModule<LFU> = NativePolicyModule::new();
    native.initialize(2);
    for l in [1, 2, 1, 3] {
        assert_eq!(native.send_request(FileRecord::new(l, 1)), Ok(()));
    }
    assert_eq!(native.stats(), (4, 1));
}
