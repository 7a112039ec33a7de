//! The memory and feature sections of an adapter's report, as lines.

use vstd::prelude::*;
use crate::heaps::{select, MemoryHeapDescriptor, MemoryTypeSet};
use crate::text::{chars_of, push_all, space_run, spaces, string_of, texts};
use crate::tokens::flag_tokens;
use crate::wrap::{print_neat_bitfield, too_wide, wrapped, WrapError};

verus! {

/// The indent of the property flags of a memory type.
pub const MEMORY_INDENT: usize = 8;

/// The indent of the feature flags of an adapter.
pub const FEATURE_INDENT: usize = 4;

/// The text that `bytesize` displays for a size in bytes.
pub uninterp spec fn byte_size_text(size: u64) -> Seq<char>;

/// The text that `gfx_hal` gives, in debug form, for memory property bits.
pub uninterp spec fn properties_text(bits: u16) -> Seq<char>;

/// The text that `gfx_hal` gives, in debug form, for feature bits.
pub uninterp spec fn features_text(bits: u128) -> Seq<char>;

/// Trusted: `bytesize::ByteSize::b(size)`, displayed through `to_string`.
/// The text depends on `size` alone; nothing else is claimed of it.
#[verifier::external_body]
fn format_byte_size(size: u64) -> (text: String)
    ensures
        text@ == byte_size_text(size),
{
    bytesize::ByteSize::b(size).to_string()
}

/// Trusted: the debug form of `gfx_hal::memory::Properties`, made from
/// `bits` with `from_bits_truncate`. The text depends on `bits` alone;
/// nothing else is claimed of it.
#[verifier::external_body]
fn format_properties(bits: u16) -> (text: String)
    ensures
        text@ == properties_text(bits),
{
    format!("{:?}", gfx_hal::memory::Properties::from_bits_truncate(bits))
}

/// Trusted: the debug form of `gfx_hal::Features`, made from `bits` with
/// `from_bits_truncate`. The text depends on `bits` alone; nothing else is
/// claimed of it.
#[verifier::external_body]
fn format_features(bits: u128) -> (text: String)
    ensures
        text@ == features_text(bits),
{
    format!("{:?}", gfx_hal::Features::from_bits_truncate(bits))
}

/// The decimal digit for `d`.
pub open spec fn digit(d: nat) -> char {
    if d == 0 {
        '0'
    } else if d == 1 {
        '1'
    } else if d == 2 {
        '2'
    } else if d == 3 {
        '3'
    } else if d == 4 {
        '4'
    } else if d == 5 {
        '5'
    } else if d == 6 {
        '6'
    } else if d == 7 {
        '7'
    } else if d == 8 {
        '8'
    } else {
        '9'
    }
}

/// `n` in decimal, without leading zeros.
pub open spec fn decimal(n: nat) -> Seq<char>
    decreases n,
{
    if n < 10 {
        seq![digit(n)]
    } else {
        decimal(n / 10).push(digit(n % 10))
    }
}

/// `digits` after enough spaces to fill `width` columns.
pub open spec fn padded(digits: Seq<char>, width: nat) -> Seq<char> {
    if digits.len() < width {
        spaces((width - digits.len()) as nat) + digits
    } else {
        digits
    }
}

/// The heading of a heap: its index in two columns, and its size.
pub open spec fn heap_heading_text(index: nat, size_text: Seq<char>) -> Seq<char> {
    "    Heap "@ + padded(decimal(index), 2) + " - "@ + size_text
}

/// Whether the flags in `text` can be wrapped at `indent`.
pub open spec fn flags_fit(text: Seq<char>, indent: nat) -> bool {
    forall|j: int|
        0 <= j < flag_tokens(text).len() ==> !too_wide(
            #[trigger] flag_tokens(text)[j],
            Some('|'),
            indent,
        )
}

/// Whether `index` is the first token of `text` that is too wide for a
/// line at `indent`.
pub open spec fn first_wide_flag(text: Seq<char>, indent: nat, index: int) -> bool {
    &&& 0 <= index < flag_tokens(text).len()
    &&& too_wide(flag_tokens(text)[index], Some('|'), indent)
    &&& forall|j: int|
        0 <= j < index ==> !too_wide(#[trigger] flag_tokens(text)[j], Some('|'), indent)
}

/// Whether `k` is the first of `configurations` whose flags cannot be
/// wrapped, and `index` its first token that is too wide.
pub open spec fn first_failure(configurations: Seq<Seq<char>>, k: int, index: int) -> bool {
    &&& 0 <= k < configurations.len()
    &&& first_wide_flag(configurations[k], MEMORY_INDENT as nat, index)
    &&& forall|j: int| 0 <= j < k ==> flags_fit(#[trigger] configurations[j], MEMORY_INDENT as nat)
}

/// The lines for the configurations of one heap, each wrapped by itself.
pub open spec fn configuration_lines(configurations: Seq<Seq<char>>) -> Seq<Seq<char>>
    decreases configurations.len(),
{
    if configurations.len() == 0 {
        Seq::empty()
    } else {
        configuration_lines(configurations.drop_last()) + wrapped(
            flag_tokens(configurations.last()),
            Some('|'),
            MEMORY_INDENT as nat,
        )
    }
}

/// The lines for one heap: its heading, a title, and its configurations.
pub open spec fn heap_section_lines(
    index: nat,
    size_text: Seq<char>,
    configurations: Seq<Seq<char>>,
) -> Seq<Seq<char>> {
    seq![heap_heading_text(index, size_text), "      Configurations:"@] + configuration_lines(
        configurations,
    )
}

/// The texts of the property sets that a set of memory types holds for
/// `heap`, in ascending order of their bits.
pub open spec fn configuration_texts(types: MemoryTypeSet, heap: usize) -> Seq<Seq<char>> {
    Seq::new(select(types@, heap).len(), |k: int| properties_text(select(types@, heap)[k]))
}

/// The character of one decimal digit.
fn digit_char(d: usize) -> (c: char)
    requires
        d < 10,
    ensures
        c == digit(d as nat),
{
    if d == 0 {
        '0'
    } else if d == 1 {
        '1'
    } else if d == 2 {
        '2'
    } else if d == 3 {
        '3'
    } else if d == 4 {
        '4'
    } else if d == 5 {
        '5'
    } else if d == 6 {
        '6'
    } else if d == 7 {
        '7'
    } else if d == 8 {
        '8'
    } else {
        '9'
    }
}

/// `n` in decimal.
pub fn decimal_chars(n: usize) -> (digits: Vec<char>)
    ensures
        digits@ == decimal(n as nat),
    decreases n,
{
    if n < 10 {
        let mut digits: Vec<char> = Vec::new();
        digits.push(digit_char(n));
        assert(digits@ =~= seq![digit(n as nat)]);
        digits
    } else {
        let mut digits = decimal_chars(n / 10);
        digits.push(digit_char(n % 10));
        digits
    }
}

/// The heading of the heap at `index`, for a size that is already text.
pub fn heap_heading_from(index: usize, size_text: &str) -> (line: String)
    ensures
        line@ == heap_heading_text(index as nat, size_text@),
{
    let mut line = chars_of("    Heap ");
    let digits = decimal_chars(index);
    if digits.len() < 2 {
        let pad = space_run(2 - digits.len());
        push_all(&mut line, &pad);
    }
    push_all(&mut line, &digits);
    let dash = chars_of(" - ");
    push_all(&mut line, &dash);
    let size = chars_of(size_text);
    push_all(&mut line, &size);
    assert(line@ =~= heap_heading_text(index as nat, size_text@));
    string_of(&line)
}

/// The heading of a heap, with its size as `bytesize` displays it.
pub fn heap_heading(heap: &MemoryHeapDescriptor) -> (line: String)
    ensures
        line@ == heap_heading_text(heap.index as nat, byte_size_text(heap.size_bytes)),
{
    let size_text = format_byte_size(heap.size_bytes);
    heap_heading_from(heap.index, size_text.as_str())
}

/// The lines for one heap, from the texts of its size and of its
/// configurations. Fails exactly when the flags of some configuration
/// cannot be wrapped, with the index of the first token that is too wide
/// in the first such configuration.
pub fn heap_section_from(index: usize, size_text: &str, configurations: &Vec<String>) -> (r: Result<
    Vec<String>,
    WrapError,
>)
    ensures
        match r {
            Ok(lines) => {
                &&& forall|k: int|
                    0 <= k < configurations.len() ==> flags_fit(
                        (#[trigger] configurations[k])@,
                        MEMORY_INDENT as nat,
                    )
                &&& texts(lines@) == heap_section_lines(
                    index as nat,
                    size_text@,
                    texts(configurations@),
                )
            },
            Err(e) => exists|k: int|
                #[trigger] first_failure(texts(configurations@), k, e.index as int),
        },
{
    let ghost all = texts(configurations@);
    let ghost head = seq![heap_heading_text(index as nat, size_text@), "      Configurations:"@];
    let mut lines: Vec<String> = Vec::new();
    lines.push(heap_heading_from(index, size_text));
    lines.push("      Configurations:".to_owned());
    let n = configurations.len();
    let mut k: usize = 0;
    proof {
        assert(all.take(0) =~= Seq::<Seq<char>>::empty());
        assert(texts(lines@) =~= head + configuration_lines(all.take(0)));
    }
    while k < n
        invariant
            k <= n,
            n == configurations.len(),
            all == texts(configurations@),
            forall|j: int|
                0 <= j < k ==> flags_fit((#[trigger] configurations[j])@, MEMORY_INDENT as nat),
            texts(lines@) == head + configuration_lines(all.take(k as int)),
        decreases n - k,
    {
        proof {
            assert(all.take(k + 1).drop_last() =~= all.take(k as int));
            assert(all.take(k + 1).last() == configurations[k as int]@);
        }
        match print_neat_bitfield(configurations[k].as_str(), MEMORY_INDENT) {
            Ok(wrapped_lines) => {
                let ghost before = lines@;
                let mut wrapped_lines = wrapped_lines;
                let ghost added = wrapped_lines@;
                lines.append(&mut wrapped_lines);
                assert(texts(lines@) =~= texts(before) + texts(added));
                assert(texts(lines@) =~= head + configuration_lines(all.take(k + 1)));
            },
            Err(e) => {
                assert forall|j: int| 0 <= j < k implies flags_fit(
                    #[trigger] all[j],
                    MEMORY_INDENT as nat,
                ) by {
                    assert(all[j] == configurations[j]@);
                }
                assert(first_failure(all, k as int, e.index as int));
                return Err(e);
            },
        }
        k += 1;
    }
    assert(all.take(n as int) =~= all);
    Ok(lines)
}

/// The lines for one heap of an adapter: its heading, a title, and each
/// distinct property set of its memory types, wrapped at `MEMORY_INDENT`.
pub fn heap_section(heap: &MemoryHeapDescriptor, types: &MemoryTypeSet) -> (r: Result<
    Vec<String>,
    WrapError,
>)
    ensures
        match r {
            Ok(lines) => {
                &&& forall|k: int|
                    0 <= k < configuration_texts(*types, heap.index).len() ==> flags_fit(
                        #[trigger] configuration_texts(*types, heap.index)[k],
                        MEMORY_INDENT as nat,
                    )
                &&& texts(lines@) == heap_section_lines(
                    heap.index as nat,
                    byte_size_text(heap.size_bytes),
                    configuration_texts(*types, heap.index),
                )
            },
            Err(e) => exists|k: int|
                #[trigger] first_failure(configuration_texts(*types, heap.index), k, e.index as int),
        },
{
    let bits = types.properties_of(heap.index);
    let n = bits.len();
    let mut configurations: Vec<String> = Vec::new();
    let mut k: usize = 0;
    while k < n
        invariant
            k <= n,
            n == bits.len(),
            bits@ == select(types@, heap.index),
            configurations.len() == k,
            forall|j: int| 0 <= j < k ==> (#[trigger] configurations[j])@ == properties_text(bits[j]),
        decreases n - k,
    {
        configurations.push(format_properties(bits[k]));
        k += 1;
    }
    let size_text = format_byte_size(heap.size_bytes);
    assert(texts(configurations@) =~= configuration_texts(*types, heap.index));
    let r = heap_section_from(heap.index, size_text.as_str(), &configurations);
    proof {
        assert forall|j: int| 0 <= j < configurations.len() implies (#[trigger] configurations[j])@
            == configuration_texts(*types, heap.index)[j] by {}
    }
    r
}

/// Whether every configuration that `types` holds for `heap` can be
/// wrapped.
pub open spec fn heap_fits(types: MemoryTypeSet, heap: usize) -> bool {
    forall|k: int|
        0 <= k < configuration_texts(types, heap).len() ==> flags_fit(
            #[trigger] configuration_texts(types, heap)[k],
            MEMORY_INDENT as nat,
        )
}

/// The lines of the memory section: a title, then the lines of each heap.
pub open spec fn memory_lines(heaps: Seq<MemoryHeapDescriptor>, types: MemoryTypeSet) -> Seq<
    Seq<char>,
>
    decreases heaps.len(),
{
    if heaps.len() == 0 {
        seq!["  GPU Memory Heaps:"@]
    } else {
        memory_lines(heaps.drop_last(), types) + heap_section_lines(
            heaps.last().index as nat,
            byte_size_text(heaps.last().size_bytes),
            configuration_texts(types, heaps.last().index),
        )
    }
}

/// Whether the heap at position `h` is the first with a configuration that
/// cannot be wrapped, `k` the first such configuration and `index` its
/// first token that is too wide.
pub open spec fn memory_failure(
    heaps: Seq<MemoryHeapDescriptor>,
    types: MemoryTypeSet,
    h: int,
    k: int,
    index: int,
) -> bool {
    &&& 0 <= h < heaps.len()
    &&& first_failure(configuration_texts(types, heaps[h].index), k, index)
    &&& forall|j: int| 0 <= j < h ==> heap_fits(types, (#[trigger] heaps[j]).index)
}

/// The memory section of an adapter's report: its title and, for each of
/// `heaps` in turn, the lines of that heap. Fails exactly when some heap has
/// a configuration that cannot be wrapped.
pub fn memory_section(heaps: &Vec<MemoryHeapDescriptor>, types: &MemoryTypeSet) -> (r: Result<
    Vec<String>,
    WrapError,
>)
    ensures
        match r {
            Ok(lines) => {
                &&& forall|j: int| 0 <= j < heaps.len() ==> heap_fits(*types, (#[trigger] heaps[j]).index)
                &&& texts(lines@) == memory_lines(heaps@, *types)
            },
            Err(e) => exists|h: int, k: int|
                #[trigger] memory_failure(heaps@, *types, h, k, e.index as int),
        },
{
    let mut lines: Vec<String> = Vec::new();
    lines.push("  GPU Memory Heaps:".to_owned());
    let n = heaps.len();
    let mut h: usize = 0;
    proof {
        assert(heaps@.take(0) =~= Seq::<MemoryHeapDescriptor>::empty());
        assert(texts(lines@) =~= memory_lines(heaps@.take(0), *types));
    }
    while h < n
        invariant
            h <= n,
            n == heaps.len(),
            forall|j: int| 0 <= j < h ==> heap_fits(*types, (#[trigger] heaps[j]).index),
            texts(lines@) == memory_lines(heaps@.take(h as int), *types),
        decreases n - h,
    {
        proof {
            assert(heaps@.take(h + 1).drop_last() =~= heaps@.take(h as int));
            assert(heaps@.take(h + 1).last() == heaps[h as int]);
        }
        match heap_section(&heaps[h], types) {
            Ok(section) => {
                let ghost before = lines@;
                let mut section = section;
                let ghost added = section@;
                lines.append(&mut section);
                assert(texts(lines@) =~= texts(before) + texts(added));
            },
            Err(e) => {
                proof {
                    let k = choose|k: int| #[trigger]
                        first_failure(
                            configuration_texts(*types, heaps[h as int].index),
                            k,
                            e.index as int,
                        );
                    assert(memory_failure(heaps@, *types, h as int, k, e.index as int));
                }
                return Err(e);
            },
        }
        h += 1;
    }
    assert(heaps@.take(n as int) =~= heaps@);
    Ok(lines)
}

/// The lines that name an adapter: its number, name, vendor and device
/// ids and the kind of device, then an empty line.
pub open spec fn identity_lines_of(
    number: nat,
    name: Seq<char>,
    vendor: nat,
    device: nat,
    device_type: Seq<char>,
) -> Seq<Seq<char>> {
    seq![
        "Adapter "@ + decimal(number),
        "  Name:          "@ + name,
        "  Vendor/Device: "@ + decimal(vendor) + ":"@ + decimal(device),
        "  Type:          "@ + device_type,
        Seq::empty(),
    ]
}

/// `label` followed by `value`.
fn labelled(label: &str, value: &Vec<char>) -> (line: String)
    ensures
        line@ == label@ + value@,
{
    let mut line = chars_of(label);
    push_all(&mut line, value);
    string_of(&line)
}

/// The lines that name the adapter with the given number.
pub fn identity_lines(
    number: usize,
    name: &str,
    vendor: usize,
    device: usize,
    device_type: &str,
) -> (lines: Vec<String>)
    ensures
        texts(lines@) == identity_lines_of(
            number as nat,
            name@,
            vendor as nat,
            device as nat,
            device_type@,
        ),
{
    let mut lines: Vec<String> = Vec::new();
    lines.push(labelled("Adapter ", &decimal_chars(number)));
    lines.push(labelled("  Name:          ", &chars_of(name)));
    let mut ids = decimal_chars(vendor);
    push_all(&mut ids, &chars_of(":"));
    push_all(&mut ids, &decimal_chars(device));
    lines.push(labelled("  Vendor/Device: ", &ids));
    lines.push(labelled("  Type:          ", &chars_of(device_type)));
    lines.push(String::new());
    assert(lines[2]@ =~= "  Vendor/Device: "@ + decimal(vendor as nat) + ":"@ + decimal(
        device as nat,
    ));
    assert(texts(lines@) =~= identity_lines_of(
        number as nat,
        name@,
        vendor as nat,
        device as nat,
        device_type@,
    ));
    lines
}

/// The feature flags of an adapter, wrapped at `FEATURE_INDENT`.
pub fn features_section(bits: u128) -> (r: Result<Vec<String>, WrapError>)
    ensures
        match r {
            Ok(lines) => flags_fit(features_text(bits), FEATURE_INDENT as nat) && texts(lines@)
                == wrapped(flag_tokens(features_text(bits)), Some('|'), FEATURE_INDENT as nat),
            Err(e) => first_wide_flag(features_text(bits), FEATURE_INDENT as nat, e.index as int),
        },
{
    let text = format_features(bits);
    print_neat_bitfield(text.as_str(), FEATURE_INDENT)
}

} // verus!
