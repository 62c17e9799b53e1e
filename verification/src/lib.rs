//! Java class files: a typed model of the binary format, a decoder and an
//! encoder that are inverse to each other, and typed views of the attributes.
//!
//! [`ClassFile::open`] decodes a class file and [`ClassFile::write`] encodes
//! one. The attributes of a class, a field or a method are kept as named
//! payloads; [`Attributes::get`] decodes one of them on demand. The wire
//! format of every type is a specification ([`Codec`]), and decoding and
//! encoding are proved inverse to each other ([`laws`]).
pub mod attr;
pub mod class;
pub mod codec;
pub mod error;
pub mod laws;
pub mod modified_utf8;
pub mod ops;
pub mod pool;

pub use crate::attr::{Attribute, decode_named};
pub use crate::attr::annotation::{
    Annotation, AnnotationDefault, AnnotationDefaultView, AnnotationView, ElementValue,
    ElementValuePair, ElementValuePairView, ElementValueView, ParameterAnnotations,
    ParameterAnnotationsView, RuntimeInvisibleAnnotations, RuntimeInvisibleAnnotationsView,
    RuntimeInvisibleParameterAnnotations, RuntimeInvisibleParameterAnnotationsView,
    RuntimeVisibleAnnotations, RuntimeVisibleAnnotationsView, RuntimeVisibleParameterAnnotations,
    RuntimeVisibleParameterAnnotationsView, copy_annotation, copy_value, read_annotation,
    read_value, write_annotation, write_value,
};
pub use crate::attr::bootstrap::{
    BootstrapMethod, BootstrapMethodView, BootstrapMethods, BootstrapMethodsView, LoadableConstant,
};
pub use crate::attr::code::{
    Code, CodeView, Exception, LineNumber, LineNumberTable, LineNumberTableView, LocalVariable,
    LocalVariableTable, LocalVariableTableView, LocalVariableType, LocalVariableTypeTable,
    LocalVariableTypeTableView, read_code, write_code,
};
pub use crate::attr::constant::{ConstantValue, ConstantValueInfo};
pub use crate::attr::members::{
    Deprecated, EnclosingMethod, Exceptions, ExceptionsView, InnerClass, InnerClasses,
    InnerClassesView, MethodParameter, MethodParameters, MethodParametersView, NestHost,
    NestMembers, NestMembersView, Signature, SourceDebugExtension, SourceDebugExtensionView,
    SourceFile, Synthetic,
};
pub use crate::attr::module::{
    Exports, ExportsView, Module, ModuleMainClass, ModulePackages, ModulePackagesView, ModuleView,
    Opens, OpensView, Provides, ProvidesView, Requires,
};
pub use crate::attr::stack_map::{
    StackMapFrame, StackMapFrameView, StackMapTable, StackMapTableView, VerificationTypeInfo,
};
pub use crate::attr::type_annotation::{
    LocalVarTarget, RuntimeInvisibleTypeAnnotations, RuntimeInvisibleTypeAnnotationsView,
    RuntimeVisibleTypeAnnotations, RuntimeVisibleTypeAnnotationsView, TargetInfo, TargetInfoView,
    TargetKind, TypeAnnotation, TypeAnnotationView, TypePath, TypePathSegment, TypePathView,
};
pub use crate::class::{
    AttributeInfo, AttributeInfoView, Attributes, AttributesView, ClassFile, ClassFileView,
    FieldInfo, FieldInfoView, MethodInfo, MethodInfoView, name_matches, read_attr_info,
    write_attr_info,
};
pub use crate::codec::{
    Codec, Decoded, LenWidth, read_blob, read_len, read_table, write_blob, write_bytes, write_len,
    write_table,
};
pub use crate::error::{ReadError, ReadResult, WriteError, WriteResult};
pub use crate::pool::{
    CPEntry, CPEntryView, CPIndex, CPType, ClassInfo, ConstantPool, ConstantPoolView, DoubleInfo,
    DynamicInfo, FieldRefInfo, FloatInfo, IntegerInfo, InterfaceMethodRefInfo, InvokeDynamicInfo,
    LongInfo, MethodHandleInfo, MethodRefInfo, MethodTypeInfo, ModuleInfo, NameAndTypeInfo,
    PackageInfo, StringInfo, UTF8Info, UTF8InfoView, read_constant_pool, write_constant_pool,
};
