use smos::dma::{DMAPool, DMA_RESERVATION_NUM_PAGES};
use smos::error::InvocationError;

fn pool() -> DMAPool {
    let pages: Vec<u64> = (0..DMA_RESERVATION_NUM_PAGES as u64).map(|i| 5000 + i).collect();
    let mut d = DMAPool::new(1, 2, pages, 0x5000_0000, 0xA000_0000);
    d.init();
    d
}

#[test]
fn dma_addresses_translate_by_offset() {
    let d = pool();
    assert_eq!(d.phys_to_virt(0x5000_0000), 0xA000_0000);
    assert_eq!(d.phys_to_virt(0x5000_3000), 0xA000_3000);
}

#[test]
fn dma_allocations_are_contiguous_runs_of_pages() {
    let mut d = pool();
    let (a, pages) = d.allocate_contig_pages(4).unwrap();
    assert_eq!(d.allocation_paddr(&a), 0x5000_0000);
    assert_eq!(pages, vec![5000, 5001, 5002, 5003]);
    if let Ok((b, pages_b)) = d.allocate_contig_pages(2) {
        let first = (d.allocation_paddr(&b) - 0x5000_0000) / 4096;
        assert!(first >= 4);
        assert_eq!(pages_b, vec![5000 + first as u64, 5001 + first as u64]);
    }
}

#[test]
fn dma_refuses_more_than_the_reservation() {
    let mut d = pool();
    let r = d.allocate_contig_pages(DMA_RESERVATION_NUM_PAGES as u32 + 1);
    assert!(matches!(r, Err(InvocationError::InsufficientResources)));
}
