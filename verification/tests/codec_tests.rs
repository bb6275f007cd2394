use ecs_core::constants::{INTERNAL_COLOR_ATTACHMENT_FORMAT, INTERNAL_DEPTH_ATTACHMENT_FORMAT};
use ecs_core::ecs::codec::{decode_u32, decode_u32_at, encode_u32};
use ecs_core::ecs::event::KeyboardEvent;
use ecs_core::ecs::type_descriptor::TypeDescriptor;
use ecs_core::render::camera::OrthographicCamera;
use ecs_core::render::vertex_format::{VertexFormat, VertexFormatItem, VertexItemType};
use ecs_core::shader::{ShaderBinding, ShaderBindingType, ShaderStage};
use ecs_core::texture::{CompressedTextureFormat, TextureFormat};
use ecs_core::render::shader as render_shader;
use ecs_core::render::texture as render_texture;
use ecs_core::utils::{round_up, round_up_power_of_two};

#[test]
fn u32_codec_round_trip() {
    assert_eq!(encode_u32(0), vec![0, 0, 0, 0]);
    assert_eq!(encode_u32(1), vec![1, 0, 0, 0]);
    assert_eq!(encode_u32(0x0403_0201), vec![1, 2, 3, 4]);
    assert_eq!(decode_u32(&encode_u32(0xdead_beef)), 0xdead_beef);
    assert_eq!(decode_u32(&vec![0xff, 0xff, 0xff, 0xff]), u32::MAX);
}

#[test]
fn u32_codec_at_offset() {
    let mut bytes = vec![9];
    bytes.append(&mut encode_u32(77));
    assert_eq!(decode_u32_at(&bytes, 1), 77);
}

#[test]
fn round_up_values() {
    assert_eq!(round_up(10, 4), 12);
    assert_eq!(round_up(8, 4), 8);
    assert_eq!(round_up(5, 0), 5);
    assert_eq!(round_up(0, 16), 0);
}

#[test]
fn round_up_power_of_two_values() {
    assert_eq!(round_up_power_of_two(0), 0);
    assert_eq!(round_up_power_of_two(1), 1);
    assert_eq!(round_up_power_of_two(2), 2);
    assert_eq!(round_up_power_of_two(3), 4);
    assert_eq!(round_up_power_of_two(5), 8);
    assert_eq!(round_up_power_of_two(1023), 1024);
    assert_eq!(round_up_power_of_two(0x8000_0000), 0x8000_0000);
}

#[test]
fn type_descriptor_aligns() {
    assert_eq!(TypeDescriptor::new(5, 4).item_size, 8);
    assert_eq!(TypeDescriptor::new(8, 4).item_size, 8);
    assert_eq!(TypeDescriptor::new(0, 1).item_size, 0);
    assert_eq!(TypeDescriptor::from_raw(3, 2).item_size, 4);
}

#[test]
fn keyboard_event_codec() {
    let down = KeyboardEvent::KeyDown(7);
    assert_eq!(down.encode(), vec![0, 7]);
    assert!(KeyboardEvent::decode(&down.encode()).unwrap() == down);

    let up = KeyboardEvent::KeyUp(9);
    assert_eq!(up.encode(), vec![1, 9]);
    assert!(KeyboardEvent::decode(&up.encode()).unwrap() == up);

    assert!(KeyboardEvent::decode(&vec![2, 0]).is_none());
    assert!(KeyboardEvent::decode(&vec![0]).is_none());
}

#[test]
fn texture_format_sizes() {
    assert_eq!(TextureFormat::Rgba8Unorm.bytes_per_row(), 4);
    assert_eq!(TextureFormat::Bgra8Unorm.bytes_per_row(), 4);
    assert_eq!(TextureFormat::Rgba16Float.bytes_per_row(), 8);
    assert_eq!(TextureFormat::Depth32.bytes_per_row(), 4);

    assert!(CompressedTextureFormat::BC1.decoded_format() == TextureFormat::Rgba8Unorm);
    assert!(CompressedTextureFormat::BC2.decoded_format() == TextureFormat::Rgba8Unorm);
    assert!(CompressedTextureFormat::BC3.decoded_format() == TextureFormat::Rgba8Unorm);
}

#[test]
fn render_texture_format_sizes() {
    assert_eq!(render_texture::TextureFormat::Rgba16Float.bytes_per_row(), 8);
    assert!(
        render_texture::CompressedTextureFormat::BC1.decoded_format()
            == render_texture::TextureFormat::Rgba8Unorm
    );
}

#[test]
fn shader_binding_new() {
    let binding = ShaderBinding::new(3, ShaderBindingType::Texture2D);
    assert_eq!(binding.binding, 3);
    assert!(binding.binding_type == ShaderBindingType::Texture2D);
    assert!(matches!(ShaderStage::Vertex, ShaderStage::Vertex));

    let dynamic = render_shader::ShaderBinding::new(
        0,
        render_shader::ShaderBindingType::DynamicUniformBuffer,
    );
    assert_eq!(dynamic.binding, 0);
}

#[test]
fn vertex_format_new() {
    let item = VertexFormatItem::new("position", VertexItemType::Float3, 0);
    let format = VertexFormat::new(vec![item], 12);
    assert_eq!(format.stride, 12);
    assert_eq!(format.items.len(), 1);
    assert_eq!(format.items[0].shader_name, "position");
    assert!(format.items[0].item_type == VertexItemType::Float3);
}

#[test]
fn internal_attachment_formats() {
    assert!(INTERNAL_COLOR_ATTACHMENT_FORMAT == TextureFormat::Rgba8Unorm);
    assert!(INTERNAL_DEPTH_ATTACHMENT_FORMAT == TextureFormat::Depth32);
}

#[test]
fn test_orthographic() {
    let camera = OrthographicCamera::new(640, 480);
    assert_eq!(camera.width, 640);
    assert_eq!(camera.height, 480);
}
