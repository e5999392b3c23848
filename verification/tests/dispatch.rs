use smos::irq::{irq_register_undo, IrqRegStep, IrqUndo};
use smos::irq::{IRQDispatch, IRQHandlerInfo, IRQRegistration, UserNotificationDispatch};
use smos::error::Sel4Error;
use smos::ut::{UTRegion, UTTable};
use smos::vm::MAPPING_SLOTS;

#[test]
fn irq_bits_are_taken_lowest_first_within_the_identifier_bits() {
    let mut d = IRQDispatch::new(1, 2, 0x8000_0000_0000_0000, 0b1100);
    assert_eq!(d.irq_control(), 1);
    assert_eq!(d.alloc_irq_bit(), Ok(2));
    assert_eq!(d.irq_badge(2), 0x8000_0000_0000_0004);
    assert_eq!(d.alloc_irq_bit(), Ok(3));
    assert_eq!(d.alloc_irq_bit(), Err(Sel4Error::NotEnoughMemory));
    d.free_irq_bit(2);
    assert_eq!(d.alloc_irq_bit(), Ok(2));
    d.set_handler(3, IRQHandlerInfo { irq: 30, irq_handler: 40, ntfn: 50 });
}

#[test]
fn irq_dispatch_hands_back_badges_it_has_no_handler_for() {
    let d = IRQDispatch::new(1, 2, 0, 0b1);
    let (calls, rest) = d.handle_irq(0b110);
    assert!(calls.is_empty());
    assert_eq!(rest, 0b110);
}

#[test]
fn irq_dispatch_calls_each_handled_bit_once_lowest_first() {
    let mut d = IRQDispatch::new(1, 2, 0, 0b1100);
    assert_eq!(d.alloc_irq_bit(), Ok(2));
    d.set_handler(2, IRQHandlerInfo { irq: 20, irq_handler: 200, ntfn: 9 });
    assert_eq!(d.alloc_irq_bit(), Ok(3));
    d.set_handler(3, IRQHandlerInfo { irq: 30, irq_handler: 300, ntfn: 9 });
    let (calls, rest) = d.handle_irq(0b1_1101);
    assert_eq!(calls.len(), 2);
    assert_eq!((calls[0].0, calls[0].1.irq, calls[0].1.irq_handler), (2, 20, 200));
    assert_eq!((calls[1].0, calls[1].1.irq, calls[1].1.irq_handler), (3, 30, 300));
    assert_eq!(rest, 0b1_0001);
    let (calls, rest) = d.handle_irq(0b1000);
    assert_eq!(calls.len(), 1);
    assert_eq!(calls[0].0, 3);
    assert_eq!(rest, 0);
}

#[test]
fn notification_dispatch_records_what_it_registers() {
    let mut t = UTTable::new(UTRegion::new(0, 0x1000), 0);
    t.add_untyped_range(0, 9, 1, false);
    let (_, w) = t.alloc_4k_untyped().unwrap();
    let mut d = UserNotificationDispatch::new(1, (77, w), 0x100, 0xF);
    let b0 = d.alloc_ntfn_bit().unwrap();
    assert_eq!(b0, 0);
    assert_eq!(d.ntfn_badge(b0), 0x101);
    assert_eq!(d.record_ntfn(b0, 500), (0, 500));
    assert_eq!(d.rs_badged_ntfn(), 500);
    let b1 = d.alloc_ntfn_bit().unwrap();
    assert_eq!(d.record_irq(b1, 501, 601), (1, 601));
    let (ntfns, handlers) = d.caps_to_destroy();
    assert_eq!(ntfns, vec![500, 501]);
    assert_eq!(handlers, vec![601]);
    let _ = IRQRegistration::new(30, 1);
    assert_eq!(MAPPING_SLOTS, 3);
}

#[test]
fn irq_registration_steps_and_their_undoing() {
    let mut d = IRQDispatch::new(1, 2, 0x8000_0000_0000_0000, 0b1100);
    let bit = d.alloc_irq_bit().unwrap();
    assert_eq!(
        d.register_steps(bit),
        vec![
            IrqRegStep::AllocHandlerSlot,
            IrqRegStep::AllocNtfnSlot,
            IrqRegStep::GetHandler,
            IrqRegStep::MintNtfn { badge: 0x8000_0000_0000_0004 },
            IrqRegStep::SetNotification
        ]
    );
    assert_eq!(irq_register_undo(2, 0), vec![IrqUndo::FreeBit { bit: 2 }]);
    assert_eq!(
        irq_register_undo(2, 3),
        vec![IrqUndo::DeleteHandler, IrqUndo::FreeNtfnSlot, IrqUndo::FreeHandlerSlot, IrqUndo::FreeBit { bit: 2 }]
    );
}

#[test]
fn irq_dispatch_knows_when_a_handled_bit_lacks_a_handler() {
    let mut d = IRQDispatch::new(1, 2, 0, 0b1100);
    assert_eq!(d.alloc_irq_bit(), Ok(2));
    assert!(!d.handlers_registered(0b100));
    assert!(d.handlers_registered(0b1000));
    d.set_handler(2, IRQHandlerInfo { irq: 20, irq_handler: 200, ntfn: 9 });
    assert!(d.handlers_registered(0b100));
}
