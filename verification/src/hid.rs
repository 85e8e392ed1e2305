//! Plain descriptions of HID reports and virtual-device capabilities.
//!
//! The emitters compute batches of these records; the unverified shell
//! translates them one-for-one into the host's input-event types and
//! performs the actual emission. Axis ranges come from the screen size the
//! device reports in its first frame.

use vstd::prelude::*;

verus! {

/// The keys the two virtual devices declare and report.
#[derive(Clone, Copy, Debug, PartialEq, Eq, Structural)]
pub enum HidKey {
    BtnTouch,
    BtnStylus,
    BtnToolPen,
    BtnToolFinger,
    BtnToolDoubletap,
    BtnToolTripletap,
    BtnToolQuadtap,
    BtnToolQuinttap,
}

/// The absolute axes the two virtual devices declare and report.
#[derive(Clone, Copy, Debug, PartialEq, Eq, Structural)]
pub enum AbsAxis {
    X,
    Y,
    Pressure,
    Distance,
    MtSlot,
    MtTrackingId,
    MtPositionX,
    MtPositionY,
}

/// Input properties a virtual device declares.
#[derive(Clone, Copy, Debug, PartialEq, Eq, Structural)]
pub enum DeviceProp {
    Direct,
    Pointer,
}

/// One entry of a HID report batch.
#[derive(Clone, Copy, Debug, PartialEq, Eq, Structural)]
pub enum HidReport {
    Key { key: HidKey, value: i32 },
    Abs { axis: AbsAxis, value: i32 },
}

/// One absolute axis with its declared range.
#[derive(Clone, Copy, Debug, PartialEq, Eq, Structural)]
pub struct AbsSetup {
    pub axis: AbsAxis,
    pub min: i32,
    pub max: i32,
}

/// The capability set a virtual device is created with.
#[derive(Clone, Debug, PartialEq, Eq)]
pub struct DeviceConfig {
    pub name: &'static str,
    pub keys: Vec<HidKey>,
    pub props: Vec<DeviceProp>,
    pub axes: Vec<AbsSetup>,
    /// USB bus number as the input subsystem encodes it.
    pub bus: u16,
    pub vendor: u16,
    pub product: u16,
    pub version: u16,
}

/// The capability set of the virtual graphics tablet: stylus keys, the
/// screen-sized absolute axes, pressure in `[0, 4096]` and distance in
/// `[0, 1024]`.
pub fn tablet_config(width: i32, height: i32) -> (c: DeviceConfig)
    ensures
        c.name@ == "touchetab"@,
        c.keys@ == seq![HidKey::BtnStylus, HidKey::BtnToolPen, HidKey::BtnTouch],
        c.props@ == seq![DeviceProp::Direct, DeviceProp::Pointer],
        c.axes@ == seq![
            (AbsSetup { axis: AbsAxis::X, min: 0, max: width }),
            (AbsSetup { axis: AbsAxis::Y, min: 0, max: height }),
            (AbsSetup { axis: AbsAxis::Pressure, min: 0, max: 4096 }),
            (AbsSetup { axis: AbsAxis::Distance, min: 0, max: 1024 }),
        ],
        c.bus == 3 && c.vendor == 0x5120 && c.product == 0x0001 && c.version == 0x1,
{
    let mut keys: Vec<HidKey> = Vec::new();
    keys.push(HidKey::BtnStylus);
    keys.push(HidKey::BtnToolPen);
    keys.push(HidKey::BtnTouch);
    let mut props: Vec<DeviceProp> = Vec::new();
    props.push(DeviceProp::Direct);
    props.push(DeviceProp::Pointer);
    let mut axes: Vec<AbsSetup> = Vec::new();
    axes.push(AbsSetup { axis: AbsAxis::X, min: 0, max: width });
    axes.push(AbsSetup { axis: AbsAxis::Y, min: 0, max: height });
    axes.push(AbsSetup { axis: AbsAxis::Pressure, min: 0, max: 4096 });
    axes.push(AbsSetup { axis: AbsAxis::Distance, min: 0, max: 1024 });
    proof {
        assert(keys@ =~= seq![HidKey::BtnStylus, HidKey::BtnToolPen, HidKey::BtnTouch]);
        assert(props@ =~= seq![DeviceProp::Direct, DeviceProp::Pointer]);
        assert(axes@ =~= seq![
            (AbsSetup { axis: AbsAxis::X, min: 0, max: width }),
            (AbsSetup { axis: AbsAxis::Y, min: 0, max: height }),
            (AbsSetup { axis: AbsAxis::Pressure, min: 0, max: 4096 }),
            (AbsSetup { axis: AbsAxis::Distance, min: 0, max: 1024 }),
        ]);
    }
    DeviceConfig {
        name: "touchetab",
        keys,
        props,
        axes,
        bus: 3,
        vendor: 0x5120,
        product: 0x0001,
        version: 0x1,
    }
}

/// The capability set of the virtual touchpad: the gesture keys, ten
/// multi-touch slots, tracking ids, and screen-sized position axes.
pub fn touchpad_config(width: i32, height: i32) -> (c: DeviceConfig)
    ensures
        c.name@ == "touchepad"@,
        c.keys@ == seq![
            HidKey::BtnTouch,
            HidKey::BtnToolFinger,
            HidKey::BtnToolDoubletap,
            HidKey::BtnToolTripletap,
            HidKey::BtnToolQuadtap,
            HidKey::BtnToolQuinttap,
        ],
        c.props@ == seq![DeviceProp::Pointer],
        c.axes@ == seq![
            (AbsSetup { axis: AbsAxis::MtSlot, min: 0, max: 10 }),
            (AbsSetup { axis: AbsAxis::MtTrackingId, min: 0, max: 65535 }),
            (AbsSetup { axis: AbsAxis::MtPositionX, min: 0, max: width }),
            (AbsSetup { axis: AbsAxis::MtPositionY, min: 0, max: height }),
            (AbsSetup { axis: AbsAxis::X, min: 0, max: width }),
            (AbsSetup { axis: AbsAxis::Y, min: 0, max: height }),
        ],
        c.bus == 3 && c.vendor == 0x5120 && c.product == 0x0002 && c.version == 0x1,
{
    let mut keys: Vec<HidKey> = Vec::new();
    keys.push(HidKey::BtnTouch);
    keys.push(HidKey::BtnToolFinger);
    keys.push(HidKey::BtnToolDoubletap);
    keys.push(HidKey::BtnToolTripletap);
    keys.push(HidKey::BtnToolQuadtap);
    keys.push(HidKey::BtnToolQuinttap);
    let mut props: Vec<DeviceProp> = Vec::new();
    props.push(DeviceProp::Pointer);
    let mut axes: Vec<AbsSetup> = Vec::new();
    axes.push(AbsSetup { axis: AbsAxis::MtSlot, min: 0, max: 10 });
    axes.push(AbsSetup { axis: AbsAxis::MtTrackingId, min: 0, max: 65535 });
    axes.push(AbsSetup { axis: AbsAxis::MtPositionX, min: 0, max: width });
    axes.push(AbsSetup { axis: AbsAxis::MtPositionY, min: 0, max: height });
    axes.push(AbsSetup { axis: AbsAxis::X, min: 0, max: width });
    axes.push(AbsSetup { axis: AbsAxis::Y, min: 0, max: height });
    proof {
        assert(keys@ =~= seq![
            HidKey::BtnTouch,
            HidKey::BtnToolFinger,
            HidKey::BtnToolDoubletap,
            HidKey::BtnToolTripletap,
            HidKey::BtnToolQuadtap,
            HidKey::BtnToolQuinttap,
        ]);
        assert(props@ =~= seq![DeviceProp::Pointer]);
        assert(axes@ =~= seq![
            (AbsSetup { axis: AbsAxis::MtSlot, min: 0, max: 10 }),
            (AbsSetup { axis: AbsAxis::MtTrackingId, min: 0, max: 65535 }),
            (AbsSetup { axis: AbsAxis::MtPositionX, min: 0, max: width }),
            (AbsSetup { axis: AbsAxis::MtPositionY, min: 0, max: height }),
            (AbsSetup { axis: AbsAxis::X, min: 0, max: width }),
            (AbsSetup { axis: AbsAxis::Y, min: 0, max: height }),
        ]);
    }
    DeviceConfig {
        name: "touchepad",
        keys,
        props,
        axes,
        bus: 3,
        vendor: 0x5120,
        product: 0x0002,
        version: 0x1,
    }
}

} // verus!
