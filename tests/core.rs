use nyxstone::capture::{AssembleError, InstructionCapture};
use nyxstone::config::{check_triple, ConfigError, FeatureSet, IntegerBase, NyxstoneConfig};
use nyxstone::disasm::{DecodeRequest, DisassembleError, Disassembly};
use nyxstone::fixup::{select_encoding, FixupKind, OffsetSign, ReferencePoint};
use nyxstone::instruction::{assembled_bytes, check_layout, instructions_to_text, Instruction};
use nyxstone::labels::{LabelDefinition, LabelTable};
use nyxstone::result::{ByteResult, InstructionResult, NyxstoneResult, StringResult};

fn kind(bit_width: u32, alignment: u32, sign: OffsetSign, reference: ReferencePoint, pc_bias: u32) -> FixupKind {
    FixupKind { bit_width, alignment, sign, reference, pc_bias }
}

fn thumb_adr() -> FixupKind {
    kind(8, 4, OffsetSign::Unsigned, ReferencePoint::AlignedPc, 4)
}

fn thumb_bcc() -> FixupKind {
    kind(8, 2, OffsetSign::Signed, ReferencePoint::Pc, 4)
}

fn thumb_bcc_wide() -> FixupKind {
    kind(20, 2, OffsetSign::Signed, ReferencePoint::Pc, 4)
}

fn thumb_b() -> FixupKind {
    kind(11, 2, OffsetSign::Signed, ReferencePoint::Pc, 4)
}

fn thumb_bl() -> FixupKind {
    kind(24, 2, OffsetSign::Signed, ReferencePoint::Pc, 4)
}

fn thumb_ldr_wide() -> FixupKind {
    kind(12, 1, OffsetSign::SignMagnitude, ReferencePoint::AlignedPc, 4)
}

fn aarch64_adr() -> FixupKind {
    kind(21, 1, OffsetSign::Signed, ReferencePoint::Pc, 0)
}

fn instr(address: u64, assembly: &str, bytes: Vec<u8>) -> Instruction {
    Instruction { address, assembly: assembly.to_string(), bytes }
}

#[test]
fn integer_base_defaults_to_decimal() {
    assert_eq!(IntegerBase::default(), IntegerBase::Dec);
    let config = NyxstoneConfig::default();
    assert_eq!(config.cpu, "");
    assert_eq!(config.features, "");
    assert_eq!(config.immediate_style, IntegerBase::Dec);
}

#[test]
fn config_with_features() {
    let config = NyxstoneConfig { features: "+fp16,+mve.fp", ..Default::default() };
    assert_eq!(config.features, "+fp16,+mve.fp");
    assert_eq!(config.cpu, "");
}

#[test]
fn feature_string_joins_toggles() {
    let mut f = FeatureSet::new();
    assert_eq!(f.to_feature_string(), "");
    f.enable("fp16");
    f.enable("mve.fp");
    assert_eq!(f.to_feature_string(), "+fp16,+mve.fp");
    f.disable("mve.fp");
    assert_eq!(f.to_feature_string(), "+fp16,-mve.fp");
    assert_eq!(f.len(), 2);
}

#[test]
fn last_toggle_wins() {
    let mut f = FeatureSet::new();
    f.enable("fp16");
    f.disable("fp16");
    assert_eq!(f.to_feature_string(), "-fp16");
    f.enable("fp16");
    assert_eq!(f.to_feature_string(), "+fp16");
    assert_eq!(f.len(), 1);
}

#[test]
fn toggles_keep_order_of_first_mention() {
    let mut a = FeatureSet::new();
    a.enable("x");
    a.disable("y");
    let mut b = FeatureSet::new();
    b.disable("y");
    b.enable("x");
    assert_eq!(a.to_feature_string(), "+x,-y");
    assert_eq!(b.to_feature_string(), "-y,+x");
}

#[test]
fn empty_triple_is_refused() {
    assert_eq!(check_triple(""), Err(ConfigError::EmptyTriple));
    assert_eq!(check_triple("x86_64-linux-gnu"), Ok(()));
}

#[test]
fn label_definition_new_and_from() {
    let d = LabelDefinition::new(".label", 0x1010);
    assert_eq!(d.name, ".label");
    assert_eq!(d.address, 0x1010);
    let name = ".other";
    let address = 4u64;
    let e = LabelDefinition::from((&name, &address));
    assert_eq!(e, LabelDefinition { name: ".other", address: 4 });
}

#[test]
fn later_label_definition_wins() {
    let defs = vec![
        LabelDefinition::new(".a", 1),
        LabelDefinition::new(".b", 2),
        LabelDefinition::new(".a", 3),
    ];
    let table = LabelTable::from_definitions(&defs);
    assert_eq!(table.len(), 2);
    assert_eq!(table.resolve(".a"), Some(3));
    assert_eq!(table.resolve(".b"), Some(2));
    assert_eq!(table.resolve(".c"), None);
    let out = table.definitions();
    assert_eq!(out, vec![LabelDefinition::new(".a", 3), LabelDefinition::new(".b", 2)]);
}

#[test]
fn label_table_insert_replaces() {
    let mut table = LabelTable::new();
    assert_eq!(table.len(), 0);
    table.insert(".label", 0x10);
    table.insert(".label", 0x20);
    assert_eq!(table.len(), 1);
    assert_eq!(table.resolve(".label"), Some(0x20));
}

#[test]
fn documented_thumb_ranges() {
    assert_eq!((thumb_adr().min_offset(), thumb_adr().max_offset()), (0, 1020));
    assert_eq!((thumb_bcc().min_offset(), thumb_bcc().max_offset()), (-256, 254));
    assert_eq!((thumb_bcc_wide().min_offset(), thumb_bcc_wide().max_offset()), (-0x100000, 0x0ffffe));
    assert_eq!((thumb_b().min_offset(), thumb_b().max_offset()), (-2048, 2046));
    assert_eq!((thumb_bl().min_offset(), thumb_bl().max_offset()), (-0x1000000, 0xfffffe));
    assert_eq!((thumb_ldr_wide().min_offset(), thumb_ldr_wide().max_offset()), (-4095, 4095));
    assert_eq!((aarch64_adr().min_offset(), aarch64_adr().max_offset()), (-0x100000, 0xfffff));
}

#[test]
fn widest_field_range() {
    let k = kind(64, 4096, OffsetSign::Unsigned, ReferencePoint::Pc, 0);
    assert_eq!(k.min_offset(), 0);
    assert_eq!(k.max_offset(), 0xffff_ffff_ffff_ffff_i128 * 4096);
    let s = kind(64, 4096, OffsetSign::Signed, ReferencePoint::Pc, 0);
    assert_eq!(s.min_offset(), -0x8000_0000_0000_0000_i128 * 4096);
    assert_eq!(s.max_offset(), 0x7fff_ffff_ffff_ffff_i128 * 4096);
    let w = kind(32, 1, OffsetSign::Signed, ReferencePoint::Pc, 0);
    assert_eq!((w.min_offset(), w.max_offset()), (-0x8000_0000, 0x7fff_ffff));
}

#[test]
fn absolute_fields_hold_the_target_address() {
    let abs64 = kind(64, 1, OffsetSign::Unsigned, ReferencePoint::Absolute, 0);
    assert_eq!(abs64.reference_address(0x1000), 0);
    assert_eq!(abs64.offset_to(0x1000, u64::MAX), u64::MAX as i128);
    assert!(abs64.can_reach(0x1000, u64::MAX));
    let abs32 = kind(32, 1, OffsetSign::Unsigned, ReferencePoint::Absolute, 0);
    assert!(abs32.can_reach(0x1000, 0xffff_ffff));
    assert!(!abs32.can_reach(0x1000, 0x1_0000_0000));
    let mut c = InstructionCapture::new(0x1000);
    c.on_instruction("mov eax, dword ptr [.label]".to_string(), vec![0x8b, 0x04, 0x25, 0, 0, 0, 0]).unwrap();
    c.on_fixup(abs32, 0x1_0000_0000).unwrap();
    assert_eq!(c.finish(), Err(AssembleError::FixupOutOfRange { instruction: 0 }));
}

#[test]
fn branch_boundaries_are_checked() {
    let k = thumb_bcc();
    for delta in -4i128..=4 {
        let lo = -256 + delta;
        let hi = 254 + delta;
        assert_eq!(k.can_hold(lo), delta >= 0 && lo % 2 == 0, "offset {lo}");
        assert_eq!(k.can_hold(hi), delta <= 0 && hi % 2 == 0, "offset {hi}");
    }
    assert!(!k.can_hold(3));
    assert!(!k.can_hold(-3));
    assert!(k.can_hold(0));
}

#[test]
fn reference_point_is_aligned_for_literal_loads() {
    let k = thumb_adr();
    assert_eq!(k.reference_address(0x02), 0x04);
    assert_eq!(k.reference_address(0x0a), 0x0c);
    assert_eq!(thumb_bcc().reference_address(0x0a), 0x0e);
    assert_eq!(k.offset_to(0x02, 0x0c), 8);
    assert!(k.can_reach(0x02, 0x0c));
    assert!(k.can_reach(0x00, 0x04));
    assert!(!k.can_reach(0x0a, 0x0e));
    assert_eq!(k.offset_to(0x0a, 0x0e), 2);
}

#[test]
fn conditional_branch_reaches_label() {
    let k = thumb_bcc();
    assert_eq!(k.offset_to(0x1000, 0x1010), 12);
    assert!(k.can_reach(0x1000, 0x1010));
}

#[test]
fn aarch64_adr_out_of_range() {
    let k = aarch64_adr();
    assert!(!k.can_reach(0x0, 0x100000));
    assert!(k.can_reach(0x0, 0xfffff));
    let mut c = InstructionCapture::new(0x0);
    c.on_instruction("adr x21, .label".to_string(), vec![0x15, 0x00, 0x00, 0x10]).unwrap();
    c.on_fixup(k, 0x100000).unwrap();
    assert_eq!(c.finish(), Err(AssembleError::FixupOutOfRange { instruction: 0 }));
}

#[test]
fn smallest_reaching_encoding_is_selected() {
    let candidates = vec![thumb_b(), thumb_bl()];
    let base = 0x1000_0000u64;
    let pc = base + 4;
    assert_eq!(select_encoding(&candidates, base, pc + 2046), Some(0));
    assert_eq!(select_encoding(&candidates, base, pc + 2048), Some(1));
    assert_eq!(select_encoding(&candidates, base, pc - 2048), Some(0));
    assert_eq!(select_encoding(&candidates, base, pc - 2050), Some(1));
    assert_eq!(select_encoding(&candidates, base, pc + 0x1000000), None);
    assert_eq!(select_encoding(&candidates, base, pc + 3), None);
    let ldr = vec![thumb_adr(), thumb_ldr_wide()];
    assert_eq!(select_encoding(&ldr, base, pc + 1020), Some(0));
    assert_eq!(select_encoding(&ldr, base, pc + 1021), Some(1));
    assert_eq!(select_encoding(&ldr, base, pc - 4), Some(1));
    assert_eq!(select_encoding(&ldr, base, pc + 4096), None);
    assert_eq!(select_encoding(&Vec::new(), base, pc), None);
}

#[test]
fn capture_single_instruction() {
    let mut c = InstructionCapture::new(0x1000);
    c.on_instruction("mov rax, rax".to_string(), vec![0x48, 0x89, 0xc0]).unwrap();
    let instrs = c.finish().unwrap();
    assert_eq!(instrs, vec![instr(0x1000, "mov rax, rax", vec![0x48, 0x89, 0xc0])]);
    assert_eq!(assembled_bytes(&instrs), vec![0x48, 0x89, 0xc0]);
}

#[test]
fn capture_lays_out_back_to_back() {
    let mut c = InstructionCapture::new(0x02);
    c.on_instruction("ldr r0, .label".to_string(), vec![0x02, 0x48]).unwrap();
    c.on_fixup(thumb_adr(), 0x0c).unwrap();
    c.on_instruction(".label:".to_string(), vec![]).unwrap();
    c.on_instruction("ldr r0, .label".to_string(), vec![0x01, 0x48]).unwrap();
    c.on_fixup(thumb_adr(), 0x0c).unwrap();
    let instrs = c.finish().unwrap();
    assert_eq!(
        instrs,
        vec![instr(0x02, "ldr r0, .label", vec![0x02, 0x48]), instr(0x04, "ldr r0, .label", vec![0x01, 0x48])]
    );
    assert_eq!(assembled_bytes(&instrs), vec![0x02, 0x48, 0x01, 0x48]);
    assert!(check_layout(&instrs, 0x02));
    assert!(!check_layout(&instrs, 0x00));
}

#[test]
fn misaligned_fixup_is_an_error() {
    let mut c = InstructionCapture::new(0x0a);
    c.on_instruction("ldr r0, .label".to_string(), vec![0x00, 0x48]).unwrap();
    c.on_fixup(thumb_adr(), 0x0e).unwrap();
    assert_eq!(c.finish(), Err(AssembleError::FixupMisaligned { instruction: 0 }));
}

#[test]
fn first_failing_fixup_is_reported() {
    let mut c = InstructionCapture::new(0x1000_0000);
    c.on_instruction("b .a".to_string(), vec![0x00, 0xe0]).unwrap();
    c.on_fixup(thumb_b(), 0x1000_0004).unwrap();
    c.on_instruction("bne .b".to_string(), vec![0x00, 0xd1]).unwrap();
    c.on_fixup(thumb_bcc(), 0x2000_0000).unwrap();
    c.on_instruction("adr r0, .c".to_string(), vec![0x00, 0xa0]).unwrap();
    c.on_fixup(thumb_adr(), 0x1000_0009).unwrap();
    assert_eq!(c.finish(), Err(AssembleError::FixupOutOfRange { instruction: 1 }));
}

#[test]
fn fixup_before_any_instruction() {
    let mut c = InstructionCapture::new(0);
    assert_eq!(c.on_fixup(thumb_b(), 4), Err(AssembleError::FixupWithoutInstruction));
    assert_eq!(c.finish(), Ok(vec![]));
}

#[test]
fn capture_at_end_of_address_space() {
    let mut c = InstructionCapture::new(u64::MAX - 3);
    c.on_instruction("a".to_string(), vec![1, 2]).unwrap();
    c.on_instruction("b".to_string(), vec![3, 4]).unwrap();
    assert_eq!(c.on_instruction("c".to_string(), vec![5]), Err(AssembleError::AddressOverflow));
    let instrs = c.finish().unwrap();
    assert_eq!(instrs, vec![instr(u64::MAX - 3, "a", vec![1, 2]), instr(u64::MAX - 1, "b", vec![3, 4])]);
}

#[test]
fn empty_input_gives_empty_output() {
    let c = InstructionCapture::new(0x0);
    let instrs = c.finish().unwrap();
    assert!(instrs.is_empty());
    assert!(assembled_bytes(&instrs).is_empty());
    let d = Disassembly::new(vec![], 0x0, 0);
    assert_eq!(d.next_request(), None);
    assert!(d.finish().is_empty());
    assert_eq!(instructions_to_text(&vec![]), "");
}

#[test]
fn disassemble_single_instruction() {
    let mut d = Disassembly::new(vec![0x48, 0x89, 0xc0], 0x1000, 0);
    assert_eq!(d.next_request(), Some(DecodeRequest { offset: 0, address: 0x1000 }));
    assert!(d.on_decoded("mov rax, rax".to_string(), 3));
    assert_eq!(d.next_request(), None);
    let instrs = d.finish();
    assert_eq!(instrs, vec![instr(0x1000, "mov rax, rax", vec![0x48, 0x89, 0xc0])]);
    assert_eq!(instructions_to_text(&instrs), "mov rax, rax\n");
}

#[test]
fn partial_disassembly_keeps_decoded_prefix() {
    let mut d = Disassembly::new(vec![0x00, 0x48, 0xff], 0x0, 0);
    assert_eq!(d.next_request(), Some(DecodeRequest { offset: 0, address: 0x0 }));
    assert!(d.on_decoded("ldr r0, [pc, #0]".to_string(), 2));
    assert_eq!(d.next_request(), Some(DecodeRequest { offset: 2, address: 0x2 }));
    let r = d.fail().unwrap();
    assert_eq!(r, vec![instr(0x0, "ldr r0, [pc, #0]", vec![0x00, 0x48])]);
}

#[test]
fn failure_on_first_instruction_is_an_error() {
    let d = Disassembly::new(vec![0xff, 0xff], 0x4000, 0);
    assert_eq!(d.fail(), Err(DisassembleError::InvalidInstruction { address: 0x4000 }));
}

#[test]
fn disassembly_stops_at_count() {
    let mut d = Disassembly::new(vec![1, 2, 3, 4], 0x10, 1);
    assert!(d.on_decoded("x".to_string(), 2));
    assert_eq!(d.next_request(), None);
    assert_eq!(d.finish(), vec![instr(0x10, "x", vec![1, 2])]);
}

#[test]
fn invalid_decode_lengths_are_refused() {
    let mut d = Disassembly::new(vec![1, 2, 3], 0x10, 0);
    assert!(!d.on_decoded("x".to_string(), 0));
    assert!(!d.on_decoded("x".to_string(), 4));
    assert!(d.on_decoded("x".to_string(), 3));
    assert_eq!(d.finish(), vec![instr(0x10, "x", vec![1, 2, 3])]);
}

#[test]
fn disassembly_addresses_wrap() {
    let mut d = Disassembly::new(vec![1, 2, 3, 4], u64::MAX - 1, 0);
    assert!(d.on_decoded("a".to_string(), 2));
    assert_eq!(d.next_request(), Some(DecodeRequest { offset: 2, address: 0 }));
    assert!(d.on_decoded("b".to_string(), 2));
    let instrs = d.finish();
    assert_eq!(instrs[1].address, 0);
    assert_eq!(instructions_to_text(&instrs), "a\nb\n");
}

#[test]
fn result_envelopes() {
    let ok = ByteResult { ok: vec![1, 2], error: String::new() };
    assert_eq!(ok.into_result(), Ok(vec![1, 2]));
    let err = ByteResult { ok: vec![], error: "bad".to_string() };
    assert_eq!(err.into_result(), Err("bad".to_string()));
    let s = StringResult { ok: "mov rax, rax\n".to_string(), error: String::new() };
    assert_eq!(s.into_result(), Ok("mov rax, rax\n".to_string()));
    let i = InstructionResult { ok: vec![], error: "no".to_string() };
    assert_eq!(i.into_result(), Err("no".to_string()));
    let n = NyxstoneResult { ok: 7u8, error: String::new() };
    assert_eq!(n.into_result(), Ok(7));
    let m = NyxstoneResult { ok: 7u8, error: "unknown target".to_string() };
    assert_eq!(m.into_result(), Err("unknown target".to_string()));
}

#[test]
fn feature_string_is_parsed_in_order() {
    let f = FeatureSet::from_feature_string("+fp16,+mve.fp").unwrap();
    assert_eq!(f.to_feature_string(), "+fp16,+mve.fp");
    let g = FeatureSet::from_feature_string("+fp16,-mve.fp,-fp16").unwrap();
    assert_eq!(g.to_feature_string(), "-fp16,-mve.fp");
    assert_eq!(g.len(), 2);
    let e = FeatureSet::from_feature_string("").unwrap();
    assert_eq!(e.len(), 0);
    assert_eq!(e.to_feature_string(), "");
}

#[test]
fn empty_feature_entries_are_skipped() {
    let f = FeatureSet::from_feature_string("+a,").unwrap();
    assert_eq!(f.to_feature_string(), "+a");
    let g = FeatureSet::from_feature_string(",+a,,-b,").unwrap();
    assert_eq!(g.to_feature_string(), "+a,-b");
    let h = FeatureSet::from_feature_string(",,").unwrap();
    assert_eq!(h.len(), 0);
}

#[test]
fn malformed_feature_strings_are_refused() {
    for bad in ["fp16", "+", "-", "+a,b", "+a,,b", "a,"] {
        assert_eq!(FeatureSet::from_feature_string(bad).err(), Some(ConfigError::MalformedFeature), "{bad}");
    }
}

fn capture_three() -> Result<Vec<Instruction>, AssembleError> {
    let mut c = InstructionCapture::new(0x1000);
    c.on_instruction("mov rax, rax".to_string(), vec![0x48, 0x89, 0xc0])?;
    c.on_instruction("nop".to_string(), vec![0x90])?;
    c.on_instruction("jne .label".to_string(), vec![0x75, 0x0b])?;
    c.on_fixup(kind(8, 1, OffsetSign::Signed, ReferencePoint::Pc, 2), 0x1010)?;
    c.finish()
}

#[test]
fn layout_round_trip() {
    let instrs = capture_three().unwrap();
    let bytes = assembled_bytes(&instrs);
    assert_eq!(bytes, vec![0x48, 0x89, 0xc0, 0x90, 0x75, 0x0b]);
    let mut d = Disassembly::new(bytes, 0x1000, 0);
    for i in &instrs {
        let request = d.next_request().unwrap();
        assert_eq!(request.address, i.address);
        assert!(d.on_decoded(i.assembly.clone(), i.bytes.len()));
    }
    assert_eq!(d.next_request(), None);
    assert_eq!(d.finish(), instrs);
}

#[test]
fn capture_is_repeatable() {
    let first = capture_three().unwrap();
    let second = capture_three().unwrap();
    assert_eq!(first, second);
    assert_eq!(assembled_bytes(&first), assembled_bytes(&second));
    assert_eq!(first[2].address, 0x1004);
}
