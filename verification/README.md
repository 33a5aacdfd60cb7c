# mBoot

mBoot is an x86_64 Type-1 hypervisor. UEFI starts it directly; it then owns the
processor, the RAM, the IOMMUs, the PCI functions, the interrupts and the pages that
its guests, the Domains, share with each other. It has no file system, no network
stack and no device drivers of its own.

The crate is split in two.

- `src/` is the verified library: every decision mBoot takes, as functions on plain
  values with contracts that Verus proves. Laws that span several functions are public
  proof functions whose names begin with `law_`.
- `app/` is the program around it: the UEFI entry, assembly, port and memory-mapped
  I/O, and the loop that carries out what the library decides. Verus does not read it.

## The library

| Module | What it decides |
|---|---|
| `manifest`, `bundle`, `network` | Which launch manifest and files are accepted |
| `image`, `launch`, `layout`, `boot_memory` | How Domains are laid out, loaded and reset |
| `memory`, `physical` | Nested page tables, and what they keep apart |
| `arch::x86_64` | VMCS contents, exits, descriptor tables, the preemption timer |
| `cpuid`, `msr`, `entropy` | What a guest sees of the processor, and its seed |
| `domain`, `scheduler`, `supervisor`, `smp` | Domain states, turns, crashes and restarts |
| `hypercall`, `grant`, `event`, `interrupt` | What Domains ask for and are answered |
| `pci`, `device`, `claim` | Quarantine, ownership and hand-over of PCI functions |
| `iommu` | ACPI descriptions, remapping tables and units |
| `display`, `boot_log`, `serial`, `halt`, `watchdog` | What is shown, and how the machine stops |

Physical memory is modelled as a map from addresses to words (`physical`), so the page
tables of guests and devices are proved as the structures that the hardware walks.

Two functions are trusted: SHA-256 from the `sha2` crate, and `core::str::from_utf8`.
Both are wrapped in `manifest`.

## The program

`MBOOT_LAUNCH_MANIFEST_SHA256` holds, while the program is built, the digest of the one
launch manifest that it accepts, in hexadecimal digits. With `MBOOT_NETWORK_BOOT` set it
fetches its files from the server that it was itself started from.
