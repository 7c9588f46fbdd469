//! The verified core of the Lockjaw user-space system library and its build tools.

pub mod annotations;
pub mod blk_start;
pub mod block;
pub mod bytes;
pub mod call_graph;
pub mod canary;
pub mod canary_start;
pub mod clock;
pub mod console;
pub mod devmgr;
pub mod display;
pub mod dma;
pub mod dma_transfer;
pub mod driver_init;
pub mod driver_regime;
pub mod driver_source;
pub mod driver_runtime;
pub mod elf;
pub mod fs;
pub mod fwcfg;
pub mod gen_regs;
pub mod gen_wires;
pub mod handle;
pub mod init_budget;
pub mod irq;
pub mod letter_case;
pub mod lints;
pub mod numerals;
pub mod partition;
pub mod partition_start;
pub mod posix;
pub mod posix_boot;
pub mod posix_regions;
pub mod print;
pub mod ramfb;
pub mod ramfb_start;
pub mod recursion;
pub mod sdhci;
pub mod sleep_test;
pub mod slots;
pub mod sorting;
pub mod stack_check;
pub mod stack_depth;
pub mod startup;
pub mod syscall;
pub mod table;
pub mod text;
pub mod time;
pub mod virtio;
pub mod virtio_blk;
pub mod virtqueue;
pub mod virtual_memory;
pub mod walks;
pub mod wire_checks;
pub mod wire_laws;
pub mod writer;
