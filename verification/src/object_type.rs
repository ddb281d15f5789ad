//! The types of object that a pool can hold, the identifier range that each
//! type owns, and the words by which each type is shown.

use vstd::prelude::*;

verus! {

/// The type of an object.
#[derive(Clone, Copy, Debug, PartialEq, Eq, Structural, Hash)]
pub enum ObjectType {
    WorkingSet,
    DataMask,
    AlarmMask,
    Container,
    SoftKeyMask,
    Key,
    Button,
    InputBoolean,
    InputString,
    InputNumber,
    InputList,
    OutputString,
    OutputNumber,
    OutputLine,
    OutputRectangle,
    OutputEllipse,
    OutputPolygon,
    OutputMeter,
    OutputLinearBarGraph,
    OutputArchedBarGraph,
    PictureGraphic,
    NumberVariable,
    StringVariable,
    FontAttributes,
    LineAttributes,
    FillAttributes,
    InputAttributes,
    ObjectPointer,
    Macro,
    AuxiliaryFunctionType1,
    AuxiliaryInputType1,
    AuxiliaryFunctionType2,
    AuxiliaryInputType2,
    AuxiliaryControlDesignatorType2,
    ColourMap,
    GraphicsContext,
    ColourPalette,
    GraphicData,
    WorkingSetSpecialControls,
    ScaledGraphic,
    WindowMask,
    KeyGroup,
    ExtendedInputAttributes,
    ExternalObjectPointer,
    ExternalObjectDefinition,
    ExternalReferenceName,
    ObjectLabelReferenceList,
    Animation,
    OutputList,
}

impl ObjectType {
    /// The lowest identifier that objects of this type may have.
    pub open spec fn range_first(self) -> u16 {
        match self {
            ObjectType::WorkingSet => 0,
            ObjectType::DataMask => 1000,
            ObjectType::AlarmMask => 2000,
            ObjectType::Container => 3000,
            ObjectType::SoftKeyMask => 4000,
            ObjectType::Key => 5000,
            ObjectType::Button => 6000,
            ObjectType::InputBoolean => 7000,
            ObjectType::InputString => 8000,
            ObjectType::InputNumber => 9000,
            ObjectType::InputList => 10000,
            ObjectType::OutputString => 11000,
            ObjectType::OutputNumber => 12000,
            ObjectType::OutputLine => 13000,
            ObjectType::OutputRectangle => 14000,
            ObjectType::OutputEllipse => 15000,
            ObjectType::OutputPolygon => 16000,
            ObjectType::OutputMeter => 17000,
            ObjectType::OutputLinearBarGraph => 18000,
            ObjectType::OutputArchedBarGraph => 19000,
            ObjectType::PictureGraphic => 20000,
            ObjectType::NumberVariable => 21000,
            ObjectType::StringVariable => 22000,
            ObjectType::FontAttributes => 23000,
            ObjectType::LineAttributes => 24000,
            ObjectType::FillAttributes => 25000,
            ObjectType::InputAttributes => 26000,
            ObjectType::ObjectPointer => 27000,
            ObjectType::Macro => 28000,
            ObjectType::AuxiliaryFunctionType1 => 29000,
            ObjectType::AuxiliaryInputType1 => 30000,
            ObjectType::AuxiliaryFunctionType2 => 31000,
            ObjectType::AuxiliaryInputType2 => 32000,
            ObjectType::AuxiliaryControlDesignatorType2 => 33000,
            ObjectType::ColourMap => 34000,
            ObjectType::GraphicsContext => 35000,
            ObjectType::ColourPalette => 36000,
            ObjectType::GraphicData => 37000,
            ObjectType::WorkingSetSpecialControls => 38000,
            ObjectType::ScaledGraphic => 39000,
            ObjectType::WindowMask => 40000,
            ObjectType::KeyGroup => 41000,
            ObjectType::ExtendedInputAttributes => 42000,
            ObjectType::ExternalObjectPointer => 43000,
            ObjectType::ExternalObjectDefinition => 44000,
            ObjectType::ExternalReferenceName => 45000,
            ObjectType::ObjectLabelReferenceList => 46000,
            ObjectType::Animation => 47000,
            ObjectType::OutputList => 48000,
        }
    }

    /// The highest identifier that objects of this type may have. A pool has
    /// one working set at most, so that type owns a single identifier; every
    /// other type owns a block of a thousand.
    pub open spec fn range_last(self) -> u16 {
        match self {
            ObjectType::WorkingSet => 0,
            _ => (self.range_first() + 999) as u16,
        }
    }

    /// Whether `id` lies in the range that this type owns.
    pub open spec fn owns(self, id: u16) -> bool {
        self.range_first() <= id <= self.range_last()
    }

    /// The first and the last identifier of the range that this type owns.
    pub fn id_bounds(self) -> (r: (u16, u16))
        ensures
            r.0 == self.range_first(),
            r.1 == self.range_last(),
            r.0 <= r.1 < 49000,
    {
        let first: u16 = match self {
            ObjectType::WorkingSet => 0,
            ObjectType::DataMask => 1000,
            ObjectType::AlarmMask => 2000,
            ObjectType::Container => 3000,
            ObjectType::SoftKeyMask => 4000,
            ObjectType::Key => 5000,
            ObjectType::Button => 6000,
            ObjectType::InputBoolean => 7000,
            ObjectType::InputString => 8000,
            ObjectType::InputNumber => 9000,
            ObjectType::InputList => 10000,
            ObjectType::OutputString => 11000,
            ObjectType::OutputNumber => 12000,
            ObjectType::OutputLine => 13000,
            ObjectType::OutputRectangle => 14000,
            ObjectType::OutputEllipse => 15000,
            ObjectType::OutputPolygon => 16000,
            ObjectType::OutputMeter => 17000,
            ObjectType::OutputLinearBarGraph => 18000,
            ObjectType::OutputArchedBarGraph => 19000,
            ObjectType::PictureGraphic => 20000,
            ObjectType::NumberVariable => 21000,
            ObjectType::StringVariable => 22000,
            ObjectType::FontAttributes => 23000,
            ObjectType::LineAttributes => 24000,
            ObjectType::FillAttributes => 25000,
            ObjectType::InputAttributes => 26000,
            ObjectType::ObjectPointer => 27000,
            ObjectType::Macro => 28000,
            ObjectType::AuxiliaryFunctionType1 => 29000,
            ObjectType::AuxiliaryInputType1 => 30000,
            ObjectType::AuxiliaryFunctionType2 => 31000,
            ObjectType::AuxiliaryInputType2 => 32000,
            ObjectType::AuxiliaryControlDesignatorType2 => 33000,
            ObjectType::ColourMap => 34000,
            ObjectType::GraphicsContext => 35000,
            ObjectType::ColourPalette => 36000,
            ObjectType::GraphicData => 37000,
            ObjectType::WorkingSetSpecialControls => 38000,
            ObjectType::ScaledGraphic => 39000,
            ObjectType::WindowMask => 40000,
            ObjectType::KeyGroup => 41000,
            ObjectType::ExtendedInputAttributes => 42000,
            ObjectType::ExternalObjectPointer => 43000,
            ObjectType::ExternalObjectDefinition => 44000,
            ObjectType::ExternalReferenceName => 45000,
            ObjectType::ObjectLabelReferenceList => 46000,
            ObjectType::Animation => 47000,
            ObjectType::OutputList => 48000,
        };
        match self {
            ObjectType::WorkingSet => (first, first),
            _ => (first, first + 999),
        }
    }

    /// The words by which this type is shown to a user.
    pub open spec fn spec_name(self) -> Seq<char> {
        match self {
            ObjectType::WorkingSet => "Working Set"@,
            ObjectType::DataMask => "Data Mask"@,
            ObjectType::AlarmMask => "Alarm Mask"@,
            ObjectType::Container => "Container"@,
            ObjectType::SoftKeyMask => "Soft Key Mask"@,
            ObjectType::Key => "Key"@,
            ObjectType::Button => "Button"@,
            ObjectType::InputBoolean => "Input Boolean"@,
            ObjectType::InputString => "Input String"@,
            ObjectType::InputNumber => "Input Number"@,
            ObjectType::InputList => "Input List"@,
            ObjectType::OutputString => "Output String"@,
            ObjectType::OutputNumber => "Output Number"@,
            ObjectType::OutputLine => "Output Line"@,
            ObjectType::OutputRectangle => "Output Rectangle"@,
            ObjectType::OutputEllipse => "Output Ellipse"@,
            ObjectType::OutputPolygon => "Output Polygon"@,
            ObjectType::OutputMeter => "Output Meter"@,
            ObjectType::OutputLinearBarGraph => "Output Linear Bar Graph"@,
            ObjectType::OutputArchedBarGraph => "Output Arched Bar Graph"@,
            ObjectType::PictureGraphic => "Picture Graphic"@,
            ObjectType::NumberVariable => "Number Variable"@,
            ObjectType::StringVariable => "String Variable"@,
            ObjectType::FontAttributes => "Font Attributes"@,
            ObjectType::LineAttributes => "Line Attributes"@,
            ObjectType::FillAttributes => "Fill Attributes"@,
            ObjectType::InputAttributes => "Input Attributes"@,
            ObjectType::ObjectPointer => "Object Pointer"@,
            ObjectType::Macro => "Macro"@,
            ObjectType::AuxiliaryFunctionType1 => "Auxiliary Function Type 1"@,
            ObjectType::AuxiliaryInputType1 => "Auxiliary Input Type 1"@,
            ObjectType::AuxiliaryFunctionType2 => "Auxiliary Function Type 2"@,
            ObjectType::AuxiliaryInputType2 => "Auxiliary Input Type 2"@,
            ObjectType::AuxiliaryControlDesignatorType2 => "Auxiliary Control Designator Type 2"@,
            ObjectType::ColourMap => "Colour Map"@,
            ObjectType::GraphicsContext => "Graphics Context"@,
            ObjectType::ColourPalette => "Colour Palette"@,
            ObjectType::GraphicData => "Graphic Data"@,
            ObjectType::WorkingSetSpecialControls => "Working Set Special Controls"@,
            ObjectType::ScaledGraphic => "Scaled Graphic"@,
            ObjectType::WindowMask => "Window Mask"@,
            ObjectType::KeyGroup => "Key Group"@,
            ObjectType::ExtendedInputAttributes => "Extended Input Attributes"@,
            ObjectType::ExternalObjectPointer => "External Object Pointer"@,
            ObjectType::ExternalObjectDefinition => "External Object Definition"@,
            ObjectType::ExternalReferenceName => "External Reference Name"@,
            ObjectType::ObjectLabelReferenceList => "Object Label Reference List"@,
            ObjectType::Animation => "Animation"@,
            ObjectType::OutputList => "Output List"@,
        }
    }

    /// The words by which this type is shown to a user.
    pub fn name(self) -> (r: &'static str)
        ensures
            r@ == self.spec_name(),
    {
        match self {
            ObjectType::WorkingSet => "Working Set",
            ObjectType::DataMask => "Data Mask",
            ObjectType::AlarmMask => "Alarm Mask",
            ObjectType::Container => "Container",
            ObjectType::SoftKeyMask => "Soft Key Mask",
            ObjectType::Key => "Key",
            ObjectType::Button => "Button",
            ObjectType::InputBoolean => "Input Boolean",
            ObjectType::InputString => "Input String",
            ObjectType::InputNumber => "Input Number",
            ObjectType::InputList => "Input List",
            ObjectType::OutputString => "Output String",
            ObjectType::OutputNumber => "Output Number",
            ObjectType::OutputLine => "Output Line",
            ObjectType::OutputRectangle => "Output Rectangle",
            ObjectType::OutputEllipse => "Output Ellipse",
            ObjectType::OutputPolygon => "Output Polygon",
            ObjectType::OutputMeter => "Output Meter",
            ObjectType::OutputLinearBarGraph => "Output Linear Bar Graph",
            ObjectType::OutputArchedBarGraph => "Output Arched Bar Graph",
            ObjectType::PictureGraphic => "Picture Graphic",
            ObjectType::NumberVariable => "Number Variable",
            ObjectType::StringVariable => "String Variable",
            ObjectType::FontAttributes => "Font Attributes",
            ObjectType::LineAttributes => "Line Attributes",
            ObjectType::FillAttributes => "Fill Attributes",
            ObjectType::InputAttributes => "Input Attributes",
            ObjectType::ObjectPointer => "Object Pointer",
            ObjectType::Macro => "Macro",
            ObjectType::AuxiliaryFunctionType1 => "Auxiliary Function Type 1",
            ObjectType::AuxiliaryInputType1 => "Auxiliary Input Type 1",
            ObjectType::AuxiliaryFunctionType2 => "Auxiliary Function Type 2",
            ObjectType::AuxiliaryInputType2 => "Auxiliary Input Type 2",
            ObjectType::AuxiliaryControlDesignatorType2 => "Auxiliary Control Designator Type 2",
            ObjectType::ColourMap => "Colour Map",
            ObjectType::GraphicsContext => "Graphics Context",
            ObjectType::ColourPalette => "Colour Palette",
            ObjectType::GraphicData => "Graphic Data",
            ObjectType::WorkingSetSpecialControls => "Working Set Special Controls",
            ObjectType::ScaledGraphic => "Scaled Graphic",
            ObjectType::WindowMask => "Window Mask",
            ObjectType::KeyGroup => "Key Group",
            ObjectType::ExtendedInputAttributes => "Extended Input Attributes",
            ObjectType::ExternalObjectPointer => "External Object Pointer",
            ObjectType::ExternalObjectDefinition => "External Object Definition",
            ObjectType::ExternalReferenceName => "External Reference Name",
            ObjectType::ObjectLabelReferenceList => "Object Label Reference List",
            ObjectType::Animation => "Animation",
            ObjectType::OutputList => "Output List",
        }
    }

    /// No identifier lies in the ranges of two different types.
    pub proof fn ranges_are_disjoint(a: ObjectType, b: ObjectType, id: u16)
        requires
            a.owns(id),
            b.owns(id),
        ensures
            a == b,
    {
    }
}

} // verus!
