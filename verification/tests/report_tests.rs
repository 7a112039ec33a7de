use gfx_info::heaps::{group_memory_types, MemoryHeapDescriptor, MemoryTypeDescriptor};
use gfx_info::report::{
    decimal_chars, features_section, heap_heading, heap_heading_from, heap_section,
    heap_section_from, identity_lines, memory_section,
};
use gfx_info::wrap::{print_neat_bitfield, WrapError};

use gfx_hal::memory::Properties;

#[test]
fn heading_pads_the_index_to_two_columns() {
    assert_eq!(heap_heading_from(0, "4.0 GB"), "    Heap  0 - 4.0 GB");
    assert_eq!(heap_heading_from(7, "256 B"), "    Heap  7 - 256 B");
    assert_eq!(heap_heading_from(12, "1.5 MB"), "    Heap 12 - 1.5 MB");
    assert_eq!(heap_heading_from(123, ""), "    Heap 123 - ");
}

#[test]
fn decimal_of_an_index() {
    let text = |n: usize| decimal_chars(n).into_iter().collect::<String>();
    assert_eq!(text(0), "0");
    assert_eq!(text(9), "9");
    assert_eq!(text(10), "10");
    assert_eq!(text(1234567890), "1234567890");
    assert_eq!(text(usize::MAX), usize::MAX.to_string());
}

#[test]
fn heading_shows_the_size_as_bytesize_does() {
    for (index, size) in [(0usize, 0u64), (1, 512), (2, 4_294_967_296), (10, u64::MAX)] {
        let heap = MemoryHeapDescriptor { index, size_bytes: size };
        let expected = format!("    Heap {:2} - {}", index, bytesize::ByteSize::b(size));
        assert_eq!(heap_heading(&heap), expected);
    }
}

#[test]
fn section_from_texts() {
    let configurations = vec!["DEVICE_LOCAL".to_string(), "CPU_VISIBLE | COHERENT".to_string()];
    let lines = heap_section_from(1, "8.0 GB", &configurations).unwrap();
    assert_eq!(
        lines,
        vec![
            "    Heap  1 - 8.0 GB".to_string(),
            "      Configurations:".to_string(),
            "        DEVICE_LOCAL".to_string(),
            "        CPU_VISIBLE | COHERENT".to_string(),
        ]
    );
}

#[test]
fn section_without_configurations() {
    let lines = heap_section_from(3, "1 B", &Vec::new()).unwrap();
    assert_eq!(lines, vec!["    Heap  3 - 1 B".to_string(), "      Configurations:".to_string()]);
}

#[test]
fn section_fails_on_a_flag_that_fits_nowhere() {
    let configurations = vec!["A | B".to_string(), format!("C | {}", "y".repeat(70))];
    assert_eq!(heap_section_from(0, "1 B", &configurations), Err(WrapError { index: 1 }));
}

#[test]
fn section_shows_each_property_set_once() {
    let local = Properties::DEVICE_LOCAL;
    let shared = Properties::CPU_VISIBLE | Properties::COHERENT;
    let types = vec![
        MemoryTypeDescriptor { heap_index: 0, properties: local.bits() },
        MemoryTypeDescriptor { heap_index: 1, properties: shared.bits() },
        MemoryTypeDescriptor { heap_index: 0, properties: local.bits() },
        MemoryTypeDescriptor { heap_index: 1, properties: Properties::CPU_VISIBLE.bits() },
    ];
    let set = group_memory_types(&types);
    let heap0 = MemoryHeapDescriptor { index: 0, size_bytes: 1024 };
    let heap1 = MemoryHeapDescriptor { index: 1, size_bytes: 2048 };
    assert_eq!(
        heap_section(&heap0, &set).unwrap(),
        vec![
            format!("    Heap  0 - {}", bytesize::ByteSize::b(1024)),
            "      Configurations:".to_string(),
            "        DEVICE_LOCAL".to_string(),
        ]
    );
    assert_eq!(
        heap_section(&heap1, &set).unwrap(),
        vec![
            format!("    Heap  1 - {}", bytesize::ByteSize::b(2048)),
            "      Configurations:".to_string(),
            "        CPU_VISIBLE".to_string(),
            "        CPU_VISIBLE | COHERENT".to_string(),
        ]
    );
}

#[test]
fn features_are_wrapped_at_indent_four() {
    let some = gfx_hal::Features::ROBUST_BUFFER_ACCESS | gfx_hal::Features::GEOMETRY_SHADER;
    let lines = features_section(some.bits()).unwrap();
    assert_eq!(lines, vec!["    ROBUST_BUFFER_ACCESS | GEOMETRY_SHADER".to_string()]);
    let all = features_section(gfx_hal::Features::all().bits()).unwrap();
    assert!(all.len() > 1);
    let names: Vec<String> = format!("{:?}", gfx_hal::Features::all())
        .split_whitespace()
        .filter(|&v| v != "|")
        .map(|v| v.to_string())
        .collect();
    let mut seen: Vec<String> = Vec::new();
    for line in &all {
        assert!(line.starts_with("    "));
        assert!(line.chars().count() < 80);
        for part in line.trim_start().split(" | ") {
            seen.push(part.to_string());
        }
    }
    assert_eq!(seen, names);
}

#[test]
fn memory_section_lists_heaps_in_turn() {
    let types = vec![
        MemoryTypeDescriptor { heap_index: 1, properties: Properties::CPU_VISIBLE.bits() },
        MemoryTypeDescriptor { heap_index: 0, properties: Properties::DEVICE_LOCAL.bits() },
        MemoryTypeDescriptor { heap_index: 0, properties: Properties::DEVICE_LOCAL.bits() },
    ];
    let set = group_memory_types(&types);
    let heaps = vec![
        MemoryHeapDescriptor { index: 0, size_bytes: 100 },
        MemoryHeapDescriptor { index: 1, size_bytes: 200 },
        MemoryHeapDescriptor { index: 2, size_bytes: 300 },
    ];
    assert_eq!(
        memory_section(&heaps, &set).unwrap(),
        vec![
            "  GPU Memory Heaps:".to_string(),
            format!("    Heap  0 - {}", bytesize::ByteSize::b(100)),
            "      Configurations:".to_string(),
            "        DEVICE_LOCAL".to_string(),
            format!("    Heap  1 - {}", bytesize::ByteSize::b(200)),
            "      Configurations:".to_string(),
            "        CPU_VISIBLE".to_string(),
            format!("    Heap  2 - {}", bytesize::ByteSize::b(300)),
            "      Configurations:".to_string(),
        ]
    );
}

#[test]
fn memory_section_without_heaps_is_its_title() {
    let set = group_memory_types(&Vec::new());
    assert_eq!(memory_section(&Vec::new(), &set), Ok(vec!["  GPU Memory Heaps:".to_string()]));
}

#[test]
fn property_texts_are_those_of_gfx_hal() {
    for bits in 0u16..64 {
        let types = vec![MemoryTypeDescriptor { heap_index: 5, properties: bits }];
        let set = group_memory_types(&types);
        let heap = MemoryHeapDescriptor { index: 5, size_bytes: 1 };
        let lines = heap_section(&heap, &set).unwrap();
        let text = format!("{:?}", Properties::from_bits_truncate(bits));
        let wrapped = print_neat_bitfield(&text, 8).unwrap();
        assert_eq!(lines[2..].to_vec(), wrapped);
        if bits & 0x10 == 0 {
            assert_eq!(wrapped, vec![format!("        {}", text)]);
        }
    }
    let all = Properties::all();
    let types = vec![MemoryTypeDescriptor { heap_index: 0, properties: all.bits() }];
    let heap = MemoryHeapDescriptor { index: 0, size_bytes: 1 };
    let lines = heap_section(&heap, &group_memory_types(&types)).unwrap();
    assert_eq!(
        lines[2..].to_vec(),
        vec![
            "        DEVICE_LOCAL | CPU_VISIBLE | COHERENT | CPU_CACHED".to_string(),
            "        LAZILY_ALLOCATED".to_string(),
        ]
    );
}

#[test]
fn identity_of_an_adapter() {
    assert_eq!(
        identity_lines(0, "Radeon RX 580", 4098, 26591, "DiscreteGpu"),
        vec![
            "Adapter 0".to_string(),
            "  Name:          Radeon RX 580".to_string(),
            "  Vendor/Device: 4098:26591".to_string(),
            "  Type:          DiscreteGpu".to_string(),
            String::new(),
        ]
    );
}

#[test]
fn failure_message() {
    assert_eq!(WrapError { index: 3 }.message(), "Not enough screen space");
}
