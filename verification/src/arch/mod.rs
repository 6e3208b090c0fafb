pub mod ioapic;
pub mod madt;
pub mod pci;
pub mod pci_ids;
pub mod percpu;
pub mod sys_desc;
