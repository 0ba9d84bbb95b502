use crash_capture::elf::{hash_text_section, ElfId, UpperHex};

const SHT_PROGBITS: u32 = 1;
const SHT_NOTE: u32 = 7;
const SHT_STRTAB: u32 = 3;
const PT_NOTE: u32 = 4;
const NT_GNU_BUILD_ID: u32 = 3;

#[derive(Clone, Copy, PartialEq)]
enum Class {
    Class32,
    Class64,
}

struct Section {
    name: String,
    kind: u32,
    data: Vec<u8>,
}

/// Builds a little-endian ELF image: header, program headers, section data,
/// section names and section headers, in that order.
struct ElfBuilder {
    class: Class,
    sections: Vec<Section>,
    note_segments: Vec<usize>,
}

fn push_word(out: &mut Vec<u8>, class: Class, v: u64) {
    match class {
        Class::Class32 => out.extend_from_slice(&(v as u32).to_le_bytes()),
        Class::Class64 => out.extend_from_slice(&v.to_le_bytes()),
    }
}

impl ElfBuilder {
    fn new(class: Class) -> Self {
        ElfBuilder { class, sections: Vec::new(), note_segments: Vec::new() }
    }

    fn add_section(&mut self, name: &str, data: Vec<u8>, kind: u32) -> usize {
        self.sections.push(Section { name: name.to_string(), kind, data });
        self.sections.len()
    }

    fn add_note_segment(&mut self, section_index: usize) {
        self.note_segments.push(section_index);
    }

    fn finish(&self) -> Vec<u8> {
        let is64 = self.class == Class::Class64;
        let ehsize = if is64 { 64 } else { 52 };
        let phsize = if is64 { 56 } else { 32 };
        let shsize = if is64 { 64 } else { 40 };
        let phoff = ehsize;
        let mut offset = phoff + phsize * self.note_segments.len();
        let mut placed = Vec::new();
        for s in &self.sections {
            placed.push((offset, s.data.len()));
            offset += s.data.len();
        }
        let mut names = vec![0u8];
        let mut name_offsets = Vec::new();
        for s in &self.sections {
            name_offsets.push(names.len());
            names.extend_from_slice(s.name.as_bytes());
            names.push(0);
        }
        let shstrtab_name = names.len();
        names.extend_from_slice(b".shstrtab\0");
        let names_off = offset;
        offset += names.len();
        let shoff = offset;
        let shnum = self.sections.len() + 2;

        let mut out = Vec::new();
        out.extend_from_slice(&[0x7f, b'E', b'L', b'F', if is64 { 2 } else { 1 }, 1, 1, 0]);
        out.extend_from_slice(&[0u8; 8]);
        out.extend_from_slice(&2u16.to_le_bytes());
        out.extend_from_slice(&3u16.to_le_bytes());
        out.extend_from_slice(&1u32.to_le_bytes());
        push_word(&mut out, self.class, 0);
        push_word(&mut out, self.class, if self.note_segments.is_empty() { 0 } else { phoff as u64 });
        push_word(&mut out, self.class, shoff as u64);
        out.extend_from_slice(&0u32.to_le_bytes());
        out.extend_from_slice(&(ehsize as u16).to_le_bytes());
        out.extend_from_slice(&(phsize as u16).to_le_bytes());
        out.extend_from_slice(&(self.note_segments.len() as u16).to_le_bytes());
        out.extend_from_slice(&(shsize as u16).to_le_bytes());
        out.extend_from_slice(&(shnum as u16).to_le_bytes());
        out.extend_from_slice(&((shnum - 1) as u16).to_le_bytes());
        assert_eq!(out.len(), ehsize);

        for &idx in &self.note_segments {
            let (o, n) = placed[idx - 1];
            out.extend_from_slice(&PT_NOTE.to_le_bytes());
            if is64 {
                out.extend_from_slice(&4u32.to_le_bytes());
                out.extend_from_slice(&(o as u64).to_le_bytes());
                out.extend_from_slice(&0u64.to_le_bytes());
                out.extend_from_slice(&0u64.to_le_bytes());
                out.extend_from_slice(&(n as u64).to_le_bytes());
                out.extend_from_slice(&(n as u64).to_le_bytes());
                out.extend_from_slice(&4u64.to_le_bytes());
            } else {
                out.extend_from_slice(&(o as u32).to_le_bytes());
                out.extend_from_slice(&0u32.to_le_bytes());
                out.extend_from_slice(&0u32.to_le_bytes());
                out.extend_from_slice(&(n as u32).to_le_bytes());
                out.extend_from_slice(&(n as u32).to_le_bytes());
                out.extend_from_slice(&4u32.to_le_bytes());
                out.extend_from_slice(&4u32.to_le_bytes());
            }
        }
        for s in &self.sections {
            out.extend_from_slice(&s.data);
        }
        out.extend_from_slice(&names);
        assert_eq!(out.len(), shoff);

        let mut header = |name: usize, kind: u32, o: usize, n: usize| {
            out.extend_from_slice(&(name as u32).to_le_bytes());
            out.extend_from_slice(&kind.to_le_bytes());
            push_word(&mut out, self.class, 0);
            push_word(&mut out, self.class, 0);
            push_word(&mut out, self.class, o as u64);
            push_word(&mut out, self.class, n as u64);
            out.extend_from_slice(&0u32.to_le_bytes());
            out.extend_from_slice(&0u32.to_le_bytes());
            push_word(&mut out, self.class, 1);
            push_word(&mut out, self.class, 0);
        };
        header(0, 0, 0, 0);
        for (i, s) in self.sections.iter().enumerate() {
            header(name_offsets[i], s.kind, placed[i].0, placed[i].1);
        }
        header(shstrtab_name, SHT_STRTAB, names_off, names.len());
        out
    }
}

fn note(kind: u32, name: &str, desc: &[u8]) -> Vec<u8> {
    let mut out = Vec::new();
    out.extend_from_slice(&((name.len() + 1) as u32).to_le_bytes());
    out.extend_from_slice(&(desc.len() as u32).to_le_bytes());
    out.extend_from_slice(&kind.to_le_bytes());
    out.extend_from_slice(name.as_bytes());
    out.push(0);
    while out.len() % 4 != 0 {
        out.push(0);
    }
    out.extend_from_slice(desc);
    while out.len() % 4 != 0 {
        out.push(0);
    }
    out
}

fn populate(count: usize, prime: usize) -> Vec<u8> {
    (0..count).map(|i| ((i % prime) % 256) as u8).collect()
}

const CLASSES: [Class; 2] = [Class::Class32, Class::Class64];

#[test]
fn elf_class() {
    for class in CLASSES {
        let mut elf = ElfBuilder::new(class);
        let text: Vec<u8> = (0..128u16).map(|i| (i * 3) as u8).collect();
        elf.add_section(".text", text, SHT_PROGBITS);
        let id = ElfId::from_mapped_file(&elf.finish()).unwrap();
        assert_eq!(id.as_uuid_string(), "80808080808000000000008080808080");
    }
}

#[test]
fn build_id() {
    for class in CLASSES {
        let mut elf = ElfBuilder::new(class);
        elf.add_section(".text", vec![0u8; 4096], SHT_PROGBITS);
        let build_id = b"0123456789ABCDEFGHIJ";
        elf.add_section(".note.gnu.build-id", note(NT_GNU_BUILD_ID, "GNU", build_id), SHT_NOTE);
        let id = ElfId::from_mapped_file(&elf.finish()).unwrap();
        assert_eq!(id.as_bytes(), build_id);
    }
}

#[test]
fn short_build_id() {
    for class in CLASSES {
        let mut elf = ElfBuilder::new(class);
        elf.add_section(".text", vec![0u8; 4096], SHT_PROGBITS);
        let build_id = b"0123";
        elf.add_section(".note.gnu.build-id", note(NT_GNU_BUILD_ID, "GNU", build_id), SHT_NOTE);
        let id = ElfId::from_mapped_file(&elf.finish()).unwrap();
        assert_eq!(id.as_bytes(), build_id);
    }
}

#[test]
fn long_build_id() {
    for class in CLASSES {
        let mut elf = ElfBuilder::new(class);
        elf.add_section(".text", vec![0u8; 4096], SHT_PROGBITS);
        let build_id: Vec<u8> = (0..32).collect();
        elf.add_section(".note.gnu.build-id", note(NT_GNU_BUILD_ID, "GNU", &build_id), SHT_NOTE);
        let id = ElfId::from_mapped_file(&elf.finish()).unwrap();
        assert_eq!(id.as_bytes(), build_id.as_slice());
    }
}

#[test]
fn pt_note() {
    for class in CLASSES {
        let mut elf = ElfBuilder::new(class);
        elf.add_section(".text", vec![0u8; 4096], SHT_PROGBITS);
        let build_id: Vec<u8> = (0..20).collect();
        let mut notes = note(0, "Linux", &[0x42, 0x2, 0, 0]);
        notes.extend(note(NT_GNU_BUILD_ID, "GNU", &build_id));
        let index = elf.add_section(".note", notes, SHT_NOTE);
        elf.add_note_segment(index);
        let id = ElfId::from_mapped_file(&elf.finish()).unwrap();
        assert_eq!(id.as_bytes(), build_id.as_slice());
    }
}

#[test]
fn multiple_pt_notes() {
    for class in CLASSES {
        let mut elf = ElfBuilder::new(class);
        elf.add_section(".text", vec![0u8; 4096], SHT_PROGBITS);
        let build_id: Vec<u8> = (0..20).collect();
        let note1 = elf.add_section(".note1", note(0, "Linux", &[0x42, 0x2, 0, 0]), SHT_NOTE);
        let note2 = elf.add_section(".note2", note(NT_GNU_BUILD_ID, "GNU", &build_id), SHT_NOTE);
        elf.add_note_segment(note1);
        elf.add_note_segment(note2);
        let id = ElfId::from_mapped_file(&elf.finish()).unwrap();
        assert_eq!(id.as_bytes(), build_id.as_slice());
    }
}

#[test]
fn unique_hashes() {
    for class in CLASSES {
        let image = |prime: usize| {
            let mut elf = ElfBuilder::new(class);
            elf.add_section(".foo", populate(32, 5), SHT_PROGBITS);
            elf.add_section(".text", populate(4 * 1024, prime), SHT_PROGBITS);
            ElfId::from_mapped_file(&elf.finish()).unwrap()
        };
        let first = image(17);
        let second = image(31);
        assert_ne!(first.as_bytes(), second.as_bytes());
        assert_eq!(first.as_bytes(), image(17).as_bytes());
    }
}

#[test]
fn not_an_elf_has_no_id() {
    assert!(ElfId::from_mapped_file(b"not an elf image at all, just text").is_none());
    assert!(ElfId::from_mapped_file(&[]).is_none());
    let mut elf = ElfBuilder::new(Class::Class64).finish();
    elf[4] = 3;
    assert!(ElfId::from_mapped_file(&elf).is_none());
}

#[test]
fn missing_text_has_no_id() {
    let mut elf = ElfBuilder::new(Class::Class32);
    elf.add_section(".data", vec![1u8; 64], SHT_PROGBITS);
    assert!(ElfId::from_mapped_file(&elf.finish()).is_none());
}

#[test]
fn hex_rendering() {
    assert_eq!(ElfId::to_hex_string(&[0x00, 0x1f, 0xa0, 0xff]), "001FA0FF");
    let id = ElfId::new(&[1, 2, 3, 4, 5, 6, 7, 8, 9, 10, 11, 12, 13, 14, 15, 16, 17, 18]).unwrap();
    assert_eq!(id.as_uuid_string(), "0403020106050807090A0B0C0D0E0F10");
    assert_eq!(id.to_string(), "0102030405060708090A0B0C0D0E0F101112");
    let short = ElfId::new(&[0xab, 0xcd]).unwrap();
    assert_eq!(short.as_uuid_string(), "ABCD0000000000000000000000000000");
    assert!(ElfId::new(&[0u8; 65]).is_none());
}

#[test]
fn text_hash_folds_first_page() {
    let mut text = vec![0u8; 5000];
    text[3] = 0x11;
    text[19] = 0x22;
    text[4095] = 0x01;
    text[4096] = 0xff;
    let id = hash_text_section(&text);
    let mut expected = [0u8; 16];
    expected[3] = 0x11 ^ 0x22;
    expected[15] = 0x01;
    assert_eq!(id.as_bytes(), &expected);
}

#[test]
fn upper_hex_text() {
    assert_eq!(UpperHex::new(&[0xde, 0xad, 0x01]).to_string(), "DEAD01");
    assert_eq!(UpperHex::new(&[]).to_string(), "");
}
