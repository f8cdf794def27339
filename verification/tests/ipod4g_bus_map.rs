use clicky_core::sys::ipod4g::{sniff_addresses, Watchdog};
use clicky_core::sys::ipod4g_bus::{phys_route_of, Ipod4gAccess, Ipod4gBus, Ipod4gDevice};

#[test]
fn physical_addresses_reach_their_devices() {
    assert_eq!(phys_route_of(0x1000_0040), Some((Ipod4gDevice::Sdram, 0x40)));
    assert_eq!(phys_route_of(0xc300_0010), Some((Ipod4gDevice::EideCon, 0x10)));
    assert_eq!(phys_route_of(0x6400_4004), Some((Ipod4gDevice::IntCon, 4)));
    assert_eq!(phys_route_of(0x6000_1038), Some((Ipod4gDevice::MysteryIrqCon, 0)));
    assert_eq!(phys_route_of(0xffff_ffff), Some((Ipod4gDevice::MysteryFlashStub, 0x1ff)));
    assert_eq!(phys_route_of(0x5000_0000), None);
}

#[test]
fn accesses_check_the_mmu_first() {
    let bus = Ipod4gBus { local_evt: true };
    assert_eq!(bus.access(0x1000_0000, false), Ipod4gAccess::MmuViolation);
    assert_eq!(bus.access(0x1000_0000, true), Ipod4gAccess::Device(Ipod4gDevice::Sdram, 0));
    assert_eq!(bus.access(0x5000_0000, true), Ipod4gAccess::Unexpected);
    assert_eq!(bus.read_address(0x8), 0x6000_f108);
    assert_eq!(bus.read_address(0x20), 0x20);
    assert!(bus.fetch_through_evp(0x4));
    assert!(!Ipod4gBus { local_evt: false }.fetch_through_evp(0x4));
    assert_eq!(bus.probe(0x7000_3000), Some((Ipod4gDevice::Hd66753, 0)));
}

#[test]
fn traced_steps_watch_extra_addresses_once() {
    assert_eq!(sniff_addresses(&[1, 2], &[2, 3, 3], true), vec![1, 2, 3]);
    assert_eq!(sniff_addresses(&[1, 2], &[2, 3], false), vec![1, 2]);
    let w = Watchdog::from_settings(None, None, Some((0x100, 0x200)), vec![0x4000], 0).unwrap();
    assert!(w.traces_at(0x150));
    assert!(!w.traces_at(0x250));
}
